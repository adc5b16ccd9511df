//! Extraction of a whole Picus program for one chip: one selector-specialized
//! module per selector, the auxiliary modules, and a `top` module that states
//! the selectors' one-hot shape.
use vstd::prelude::*;
use std::collections::BTreeMap;
use crate::pcl::{
    PicusExpr, PicusConstraint, PicusModule, ModuleView, e_add, c_lt, c_bit, empty_module,
    partial_eval_module,
};
use crate::picus_builder::{
    PicusBuilder, BuilderConfig, ExtractState, ChipDesc, PicusInfo, OpcodeSpec, SubmoduleMode, ShrCarrySummaryMode,
    has_chip, first_chip_with_name, specialize_row, atom_vars,
};
use crate::picus_checks::find_chip;
use crate::picus_extract::{ExtractError, analyze_spec};
use crate::module_map::{merge_modules, put_module, put_module_into};

verus! {

broadcast use {vstd::std_specs::btree::group_btree_axioms, vstd::laws_cmp::group_laws_cmp};

// ---------------------------------------------------------------------------
// Selector assignments
// ---------------------------------------------------------------------------

/// Zero for every selector column other than `chosen`, in order.
pub open spec fn zero_other_selectors(env: Map<usize, u64>, sels: Seq<(usize, String)>, chosen: usize) -> Map<usize, u64>
    decreases sels.len(),
{
    if sels.len() == 0 {
        env
    } else {
        let e = zero_other_selectors(env, sels.drop_last(), chosen);
        if sels.last().0 != chosen {
            e.insert(sels.last().0, 0)
        } else {
            e
        }
    }
}

/// The fixed assignments of one extraction pass: `is_real = 1` when the chip
/// has such a column and, when a selector is chosen, that selector `= 1` and
/// every other selector `= 0`.
pub open spec fn selector_env(info: PicusInfo, selected: Option<usize>) -> Map<usize, u64> {
    let base = match info.is_real_index {
        Some(id) => Map::<usize, u64>::empty().insert(id, 1),
        None => Map::<usize, u64>::empty(),
    };
    match selected {
        None => base,
        Some(c) => zero_other_selectors(base.insert(c, 1), info.selector_indices@, c),
    }
}

/// The fixed assignments of one extraction pass: `is_real = 1` when the chip
/// has such a column and, when a selector is chosen, that selector `= 1` and
/// every other selector `= 0`.
pub fn build_selector_env(picus_info: &PicusInfo, selected_selector_col: Option<usize>) -> (env: BTreeMap<usize, u64>)
    ensures
        env@ == selector_env(*picus_info, selected_selector_col),
{
    let mut env: BTreeMap<usize, u64> = BTreeMap::new();
    if let Some(id) = picus_info.is_real_index {
        env.insert(id, 1);
    }
    if let Some(selected_col) = selected_selector_col {
        env.insert(selected_col, 1);
        let ghost start = env@;
        let ghost sels = picus_info.selector_indices@;
        let mut i: usize = 0;
        assert(sels.subrange(0, 0) =~= Seq::<(usize, String)>::empty());
        while i < picus_info.selector_indices.len()
            invariant
                i <= sels.len(),
                sels == picus_info.selector_indices@,
                env@ == zero_other_selectors(start, sels.subrange(0, i as int), selected_col),
            decreases sels.len() - i,
        {
            assert(sels.subrange(0, i + 1).drop_last() =~= sels.subrange(0, i as int));
            let other = picus_info.selector_indices[i].0;
            if other != selected_col {
                env.insert(other, 0);
            }
            i += 1;
        }
        assert(sels.subrange(0, sels.len() as int) =~= sels);
    }
    env
}

/// `zero_other_selectors` sets every other selector column to zero.
pub proof fn lemma_zero_other_selectors(env: Map<usize, u64>, sels: Seq<(usize, String)>, chosen: usize)
    ensures
        forall|j: int|
            0 <= j < sels.len() && #[trigger] sels[j].0 != chosen ==> zero_other_selectors(env, sels, chosen).contains_key(sels[j].0)
                && zero_other_selectors(env, sels, chosen)[sels[j].0] == 0,
    decreases sels.len(),
{
    if sels.len() > 0 {
        lemma_zero_other_selectors(env, sels.drop_last(), chosen);
        assert forall|j: int| 0 <= j < sels.len() - 1 implies sels.drop_last()[j] == sels[j] by {}
    }
}

/// `zero_other_selectors` keeps the columns that are not other selectors.
pub proof fn lemma_zero_other_selectors_keeps(env: Map<usize, u64>, sels: Seq<(usize, String)>, chosen: usize, k: usize)
    requires
        forall|j: int| 0 <= j < sels.len() ==> #[trigger] sels[j].0 != k || k == chosen,
    ensures
        zero_other_selectors(env, sels, chosen).contains_key(k) == env.contains_key(k),
        env.contains_key(k) ==> zero_other_selectors(env, sels, chosen)[k] == env[k],
    decreases sels.len(),
{
    if sels.len() > 0 {
        assert forall|j: int| 0 <= j < sels.len() - 1 implies #[trigger] sels.drop_last()[j].0 != k || k == chosen by {
            assert(sels.drop_last()[j] == sels[j]);
        }
        lemma_zero_other_selectors_keeps(env, sels.drop_last(), chosen, k);
        assert(sels.last() == sels[sels.len() - 1]);
    }
}

/// A selector pass is one-hot: the chosen selector is 1 and every other
/// selector column is 0; `is_real` is 1 unless it is one of the other
/// selector columns.
pub proof fn lemma_selector_env_one_hot(info: PicusInfo, chosen: usize)
    ensures
        ({
            let env = selector_env(info, Some(chosen));
            let sels = info.selector_indices@;
            &&& env.contains_key(chosen) && env[chosen] == 1
            &&& forall|j: int| 0 <= j < sels.len() && #[trigger] sels[j].0 != chosen ==> env.contains_key(sels[j].0) && env[sels[j].0] == 0
            &&& ({
                let id = info.is_real_index.unwrap();
                info.is_real_index is Some && id != chosen && (forall|j: int| 0 <= j < sels.len() ==> #[trigger] sels[j].0 != id)
                    ==> env.contains_key(id) && env[id] == 1
            })
        }),
{
    let base = match info.is_real_index {
        Some(id) => Map::<usize, u64>::empty().insert(id, 1),
        None => Map::<usize, u64>::empty(),
    };
    let sels = info.selector_indices@;
    lemma_zero_other_selectors(base.insert(chosen, 1), sels, chosen);
    lemma_zero_other_selectors_keeps(base.insert(chosen, 1), sels, chosen, chosen);
    if let Some(id) = info.is_real_index {
        if id != chosen && (forall|j: int| 0 <= j < sels.len() ==> #[trigger] sels[j].0 != id) {
            lemma_zero_other_selectors_keeps(base.insert(chosen, 1), sels, chosen, id);
        }
    }
}

// ---------------------------------------------------------------------------
// The top module
// ---------------------------------------------------------------------------

/// The sum of the selector variables `sels[..n]`, added left to right from 0.
pub open spec fn selector_sum(sels: Seq<(usize, String)>) -> PicusExpr
    decreases sels.len(),
{
    if sels.len() == 0 {
        PicusExpr::Const(0)
    } else {
        e_add(selector_sum(sels.drop_last()), PicusExpr::Var(sels.last().0))
    }
}

/// The selector variables.
pub open spec fn selector_vars(sels: Seq<(usize, String)>) -> Seq<PicusExpr> {
    sels.map_values(|s: (usize, String)| PicusExpr::Var(s.0))
}

/// The top module: the chip's module renamed `top`, whose only outputs are the
/// selectors, with the postconditions that every selector is a bit and that
/// the selectors sum to less than 2; with `assume_deterministic`, the
/// selectors are also assumed deterministic.
pub open spec fn top_module(base: ModuleView, sels: Seq<(usize, String)>, assume_deterministic: bool) -> ModuleView {
    if sels.len() == 0 {
        ModuleView { name: "top"@, outputs: Seq::empty(), ..base }
    } else {
        ModuleView {
            name: "top"@,
            outputs: selector_vars(sels),
            postconditions: base.postconditions + selector_vars(sels).map_values(|v: PicusExpr| c_bit(v)).push(
                c_lt(selector_sum(sels), PicusExpr::Const(2)),
            ),
            assume_deterministic: if assume_deterministic {
                base.assume_deterministic + selector_vars(sels)
            } else {
                base.assume_deterministic
            },
            ..base
        }
    }
}

/// Turns the chip's module into the top module.
pub fn build_top_module(base: PicusModule, picus_info: &PicusInfo, assume_selectors_deterministic: bool) -> (top: PicusModule)
    ensures
        top@ == top_module(base@, picus_info.selector_indices@, assume_selectors_deterministic),
{
    let mut top = base;
    top.name = "top".to_owned();
    top.outputs = Vec::new();
    let ghost b = base@;
    let ghost sels = picus_info.selector_indices@;
    if picus_info.selector_indices.len() > 0 {
        let mut one_hot_sum = PicusExpr::Const(0);
        let mut i: usize = 0;
        assert(sels.subrange(0, 0) =~= Seq::<(usize, String)>::empty());
        while i < picus_info.selector_indices.len()
            invariant
                i <= sels.len(),
                sels == picus_info.selector_indices@,
                one_hot_sum == selector_sum(sels.subrange(0, i as int)),
                top@ == (ModuleView {
                    name: "top"@,
                    outputs: selector_vars(sels.subrange(0, i as int)),
                    postconditions: b.postconditions + selector_vars(sels.subrange(0, i as int)).map_values(|v: PicusExpr| c_bit(v)),
                    assume_deterministic: if assume_selectors_deterministic {
                        b.assume_deterministic + selector_vars(sels.subrange(0, i as int))
                    } else {
                        b.assume_deterministic
                    },
                    ..b
                }),
            decreases sels.len() - i,
        {
            assert(sels.subrange(0, i + 1).drop_last() =~= sels.subrange(0, i as int));
            let col = picus_info.selector_indices[i].0;
            let selector_var = PicusExpr::Var(col);
            one_hot_sum = one_hot_sum.plus(PicusExpr::Var(col));
            top.outputs.push(PicusExpr::Var(col));
            top.postconditions.push(PicusConstraint::new_bit(PicusExpr::Var(col)));
            if assume_selectors_deterministic {
                top.assume_deterministic.push(selector_var);
            }
            assert(selector_vars(sels.subrange(0, i + 1)) =~= selector_vars(sels.subrange(0, i as int)).push(PicusExpr::Var(col)));
            assert(selector_vars(sels.subrange(0, i + 1)).map_values(|v: PicusExpr| c_bit(v)) =~= selector_vars(
                sels.subrange(0, i as int),
            ).map_values(|v: PicusExpr| c_bit(v)).push(c_bit(PicusExpr::Var(col))));
            i += 1;
        }
        assert(sels.subrange(0, sels.len() as int) =~= sels);
        top.postconditions.push(PicusConstraint::new_lt(one_hot_sum, PicusExpr::Const(2)));
    }
    assert(top@ =~= top_module(b, sels, assume_selectors_deterministic));
    top
}

// ---------------------------------------------------------------------------
// Programs
// ---------------------------------------------------------------------------

/// A Picus program: modules over the field of the given prime, at most one per name.
pub struct PicusProgram {
    pub prime: u64,
    pub modules: Vec<PicusModule>,
}

impl PicusProgram {
    pub open spec fn modules_view(&self) -> Seq<ModuleView> {
        self.modules@.map_values(|m: PicusModule| m@)
    }

    /// An empty program.
    pub fn new(prime: u64) -> (p: PicusProgram)
        ensures
            p.prime == prime,
            p.modules_view() == Seq::<ModuleView>::empty(),
    {
        let p = PicusProgram { prime, modules: Vec::new() };
        assert(p.modules_view() =~= Seq::<ModuleView>::empty());
        p
    }

    /// Adds a module, replacing the one with the same name.
    pub fn add_module(&mut self, m: PicusModule)
        ensures
            final(self).prime == old(self).prime,
            final(self).modules_view() == put_module(old(self).modules_view(), m@),
    {
        put_module_into(&mut self.modules, m);
    }

    /// Adds modules one after the other, each replacing the one with its name.
    pub fn add_modules(&mut self, ms: Vec<PicusModule>)
        ensures
            final(self).prime == old(self).prime,
            final(self).modules_view() == merge_modules(old(self).modules_view(), ms@.map_values(|m: PicusModule| m@)),
    {
        let ghost mvs = ms@.map_values(|m: PicusModule| m@);
        let mut i: usize = 0;
        assert(mvs.subrange(0, 0) =~= Seq::<ModuleView>::empty());
        while i < ms.len()
            invariant
                i <= ms@.len(),
                mvs == ms@.map_values(|m: PicusModule| m@),
                self.prime == old(self).prime,
                self.modules_view() == merge_modules(old(self).modules_view(), mvs.subrange(0, i as int)),
            decreases ms@.len() - i,
        {
            assert(mvs.subrange(0, i + 1).drop_last() =~= mvs.subrange(0, i as int));
            assert(mvs.subrange(0, i + 1).last() == ms@[i as int]@);
            self.add_module(ms[i].duplicate());
            i += 1;
        }
        assert(mvs.subrange(0, mvs.len() as int) =~= mvs);
    }
}

// ---------------------------------------------------------------------------
// Extraction passes
// ---------------------------------------------------------------------------

/// The builder setup for extracting `chip` on its own main row under `env`.
pub open spec fn chip_config(
    chip: ChipDesc,
    chips: Seq<ChipDesc>,
    specs: Seq<OpcodeSpec>,
    env: Map<usize, u64>,
    mode: SubmoduleMode,
    shr_mode: ShrCarrySummaryMode,
) -> BuilderConfig {
    BuilderConfig { main: specialize_row(atom_vars(0, chip.width as int), env), chips, specs, mode, shr_mode, env }
}

/// The empty extraction state of `chip`'s module.
pub open spec fn chip_start(chip: ChipDesc, fresh: int) -> ExtractState {
    ExtractState { module: empty_module(chip.name@), aux: Seq::empty(), tasks: Seq::empty(), symbolic: Seq::empty(), fresh }
}

/// Extracts `chip` on its own main row (the variables `0..width`) under the
/// fixed assignments `specialization_env`, starting fresh variables at
/// `fresh_var_ctr`. Returns the chip's module, the auxiliary modules, and the
/// next unused variable.
pub fn analyze_chip<'chips>(
    chip: &ChipDesc,
    chips: &'chips [ChipDesc],
    opcode_specs: &'chips [OpcodeSpec],
    specialization_env: Option<BTreeMap<usize, u64>>,
    submodule_mode: SubmoduleMode,
    shr_carry_summary_mode: ShrCarrySummaryMode,
    num_public_values: usize,
    fresh_var_ctr: usize,
    depth: usize,
) -> (r: Result<(PicusModule, Vec<PicusModule>, usize), ExtractError>)
    ensures
        ({
            let env = match specialization_env {
                Some(e) => e@,
                None => Map::<usize, u64>::empty(),
            };
            let res = analyze_spec(
                chip_config(*chip, chips@, opcode_specs@, env, submodule_mode, shr_carry_summary_mode),
                *chip,
                chip_start(*chip, fresh_var_ctr as int),
                depth as nat,
            );
            &&& r is Ok <==> res is Some
            &&& r matches Ok((m, aux, f)) ==> {
                &&& m@ == res.unwrap().module
                &&& aux@.map_values(|a: PicusModule| a@) == res.unwrap().aux
                &&& f == res.unwrap().fresh
            }
        }),
{
    let mut builder = PicusBuilder::new(
        chip,
        PicusModule::new(chip.name.clone()),
        chips,
        opcode_specs,
        None,
        specialization_env,
        Some(submodule_mode),
        Some(shr_carry_summary_mode),
        num_public_values,
        fresh_var_ctr,
    );
    assert(builder.state() =~= chip_start(*chip, fresh_var_ctr as int));
    match builder.analyze(chip, depth) {
        Ok(()) => {},
        Err(e) => {
            return Err(e);
        },
    }
    let fresh = builder.fresh_var_ctr;
    Ok((builder.picus_module, builder.aux_modules, fresh))
}

/// One extraction pass of `chip`: specialized to `selected` (or to no
/// selector), with instruction calls inlined or ignored per `mode`.
pub open spec fn pass_result(
    chip: ChipDesc,
    chips: Seq<ChipDesc>,
    specs: Seq<OpcodeSpec>,
    shr_mode: ShrCarrySummaryMode,
    depth: nat,
    selected: Option<usize>,
    mode: SubmoduleMode,
) -> Option<ExtractState> {
    analyze_spec(
        chip_config(chip, chips, specs, selector_env(chip.picus_info, selected), mode, shr_mode),
        chip,
        chip_start(chip, chip.width + 1),
        depth,
    )
}

/// The selector passes over `sels`: the merged auxiliary modules and the
/// selector-specialized modules (each replacing the module of the same name).
pub open spec fn selector_passes(
    chip: ChipDesc,
    chips: Seq<ChipDesc>,
    specs: Seq<OpcodeSpec>,
    shr_mode: ShrCarrySummaryMode,
    depth: nat,
    sels: Seq<(usize, String)>,
) -> Option<(Seq<ModuleView>, Seq<ModuleView>)>
    decreases sels.len(),
{
    if sels.len() == 0 {
        Some((Seq::empty(), Seq::empty()))
    } else {
        match selector_passes(chip, chips, specs, shr_mode, depth, sels.drop_last()) {
            None => None,
            Some(acc) => {
                let col = sels.last().0;
                match pass_result(chip, chips, specs, shr_mode, depth, Some(col), SubmoduleMode::Inline) {
                    None => None,
                    Some(r) => Some((
                        merge_modules(acc.0, r.aux),
                        put_module(acc.1, partial_eval_module(r.module, selector_env(chip.picus_info, Some(col)))),
                    )),
                }
            },
        }
    }
}

/// The modules of the extracted program for the chip named `chip_name`: the
/// auxiliary modules, the selector-specialized module, the auxiliary modules
/// of the top pass, and the top module. Every selector pass yields a module
/// named after the chip, so each replaces the one before and the last pass's
/// module remains. `None` when extraction stops with an error.
pub open spec fn extract_spec(
    chip_name: Seq<char>,
    chips: Seq<ChipDesc>,
    specs: Seq<OpcodeSpec>,
    assume_selectors_deterministic: bool,
    shr_mode: ShrCarrySummaryMode,
    depth: nat,
) -> Option<Seq<ModuleView>> {
    if !has_chip(chips, chip_name) {
        None
    } else {
        let chip = chips[first_chip_with_name(chips, chip_name)];
        let info = chip.picus_info;
        let sels = info.selector_indices@;
        if sels.len() == 0 && info.is_real_index is None {
            None
        } else {
            let passes = if sels.len() == 0 {
                match pass_result(chip, chips, specs, shr_mode, depth, None, SubmoduleMode::Inline) {
                    None => None,
                    Some(r) => Some((
                        merge_modules(Seq::empty(), r.aux),
                        put_module(Seq::empty(), partial_eval_module(r.module, selector_env(info, None))),
                    )),
                }
            } else {
                selector_passes(chip, chips, specs, shr_mode, depth, sels)
            };
            match passes {
                None => None,
                Some(p) => match pass_result(chip, chips, specs, shr_mode, depth, None, SubmoduleMode::Ignore) {
                    None => None,
                    Some(t) => Some(
                        put_module(
                            merge_modules(merge_modules(merge_modules(Seq::empty(), p.0), p.1), t.aux),
                            top_module(partial_eval_module(t.module, selector_env(info, None)), sels, assume_selectors_deterministic),
                        ),
                    ),
                },
            }
        }
    }
}

/// Extracts the Picus program of the chip named `chip_name` over the
/// KoalaBear field: each selector pass specializes the chip to one selector
/// and inlines its instruction calls; the top pass ignores instruction calls
/// and yields the module that states the selectors' one-hot shape.
pub fn extract_picus_program(
    chip_name: &String,
    chips: &[ChipDesc],
    opcode_specs: &[OpcodeSpec],
    assume_selectors_deterministic: bool,
    shr_carry_summary_mode: ShrCarrySummaryMode,
    num_public_values: usize,
    depth: usize,
) -> (r: Result<PicusProgram, ExtractError>)
    requires
        forall|i: int| 0 <= i < chips@.len() ==> #[trigger] chips@[i].width < usize::MAX,
    ensures
        r is Ok <==> extract_spec(chip_name@, chips@, opcode_specs@, assume_selectors_deterministic, shr_carry_summary_mode, depth as nat) is Some,
        r matches Ok(p) ==> p.prime == crate::lookup::KOALA_BEAR_PRIME
            && Some(p.modules_view()) == extract_spec(chip_name@, chips@, opcode_specs@, assume_selectors_deterministic, shr_carry_summary_mode, depth as nat),
{
    let chip = match find_chip(chips, chip_name) {
        Some(c) => c,
        None => {
            return Err(ExtractError::UnknownChip);
        },
    };
    proof {
        lemma_first_chip_in_range(chips@, chip_name@);
    }
    let info = &chip.picus_info;
    let fresh_var_ctr_base = chip.width + 1;
    if info.selector_indices.len() == 0 && info.is_real_index.is_none() {
        return Err(ExtractError::NoSelectors);
    }
    let mut all_aux_modules = PicusProgram::new(crate::lookup::KOALA_BEAR_PRIME);
    let mut selector_modules = PicusProgram::new(crate::lookup::KOALA_BEAR_PRIME);
    let ghost sels = info.selector_indices@;
    if info.selector_indices.len() == 0 {
        let env = build_selector_env(info, None);
        let (base_module, aux_modules, _) = match analyze_chip(
            chip,
            chips,
            opcode_specs,
            Some(env.clone()),
            SubmoduleMode::Inline,
            shr_carry_summary_mode,
            num_public_values,
            fresh_var_ctr_base,
            depth,
        ) {
            Ok(res) => res,
            Err(e) => {
                return Err(e);
            },
        };
        all_aux_modules.add_modules(aux_modules);
        let updated_module = base_module.partial_eval(&env);
        selector_modules.add_module(updated_module);
    } else {
        let mut i: usize = 0;
        assert(sels.subrange(0, 0) =~= Seq::<(usize, String)>::empty());
        while i < info.selector_indices.len()
            invariant
                i <= sels.len(),
                sels == info.selector_indices@,
                *info == chip.picus_info,
                fresh_var_ctr_base == chip.width + 1,
                has_chip(chips@, chip_name@),
                *chip == chips@[first_chip_with_name(chips@, chip_name@)],
                sels.len() > 0,
                selector_passes(*chip, chips@, opcode_specs@, shr_carry_summary_mode, depth as nat, sels.subrange(0, i as int))
                    == Some((all_aux_modules.modules_view(), selector_modules.modules_view())),
            decreases sels.len() - i,
        {
            assert(sels.subrange(0, i + 1).drop_last() =~= sels.subrange(0, i as int));
            assert(sels.subrange(0, i + 1).last() == sels[i as int]);
            let selector_col = info.selector_indices[i].0;
            let env = build_selector_env(info, Some(selector_col));
            let (base_module, aux_modules, _) = match analyze_chip(
                chip,
                chips,
                opcode_specs,
                Some(env.clone()),
                SubmoduleMode::Inline,
                shr_carry_summary_mode,
                num_public_values,
                fresh_var_ctr_base,
                depth,
            ) {
                Ok(res) => res,
                Err(e) => {
                    assert(pass_result(*chip, chips@, opcode_specs@, shr_carry_summary_mode, depth as nat, Some(selector_col), SubmoduleMode::Inline) is None);
                    assert(selector_passes(*chip, chips@, opcode_specs@, shr_carry_summary_mode, depth as nat, sels.subrange(0, i + 1)) is None);
                    proof {
                        lemma_selector_passes_none(*chip, chips@, opcode_specs@, shr_carry_summary_mode, depth as nat, sels, i as int + 1);
                    }
                    return Err(e);
                },
            };
            all_aux_modules.add_modules(aux_modules);
            let updated_module = base_module.partial_eval(&env);
            selector_modules.add_module(updated_module);
            i += 1;
        }
        assert(sels.subrange(0, sels.len() as int) =~= sels);
    }
    let mut picus_program = PicusProgram::new(crate::lookup::KOALA_BEAR_PRIME);
    picus_program.add_modules(all_aux_modules.modules);
    picus_program.add_modules(selector_modules.modules);
    let top_env = build_selector_env(info, None);
    let (top_base_module, top_aux_modules, _) = match analyze_chip(
        chip,
        chips,
        opcode_specs,
        Some(top_env.clone()),
        SubmoduleMode::Ignore,
        shr_carry_summary_mode,
        num_public_values,
        fresh_var_ctr_base,
        depth,
    ) {
        Ok(res) => res,
        Err(e) => {
            return Err(e);
        },
    };
    picus_program.add_modules(top_aux_modules);
    let top_module = build_top_module(top_base_module.partial_eval(&top_env), info, assume_selectors_deterministic);
    picus_program.add_module(top_module);
    Ok(picus_program)
}

/// The chip found by name is one of the chips.
proof fn lemma_first_chip_in_range(chips: Seq<ChipDesc>, name: Seq<char>)
    ensures
        has_chip(chips, name) ==> 0 <= first_chip_with_name(chips, name) < chips.len(),
{
    crate::picus_builder::lemma_first_chip(chips, name);
}

/// A selector pass that fails makes the whole list of passes fail.
pub proof fn lemma_selector_passes_none(
    chip: ChipDesc,
    chips: Seq<ChipDesc>,
    specs: Seq<OpcodeSpec>,
    shr_mode: ShrCarrySummaryMode,
    depth: nat,
    sels: Seq<(usize, String)>,
    k: int,
)
    requires
        0 <= k <= sels.len(),
        selector_passes(chip, chips, specs, shr_mode, depth, sels.subrange(0, k)) is None,
    ensures
        selector_passes(chip, chips, specs, shr_mode, depth, sels) is None,
    decreases sels.len() - k,
{
    if k == sels.len() {
        assert(sels.subrange(0, k) =~= sels);
    } else {
        assert(sels.subrange(0, k + 1).drop_last() =~= sels.subrange(0, k));
        lemma_selector_passes_none(chip, chips, specs, shr_mode, depth, sels, k + 1);
    }
}

} // verus!
