//! An AIR builder that records a chip's constraints and lookup interactions as
//! a Picus module.
use vstd::prelude::*;
use std::collections::BTreeMap;
use crate::lookup::AirLookup;
use crate::pcl::{
    PicusAtom, PicusExpr, PicusConstraint, PicusModule, PicusCall, ModuleView, CallView, partial_eval,
    partial_evaluate_expr, c_zero, empty_module_with_ports,
};
use crate::module_map::{put_module, put_module_into};

verus! {

broadcast use {vstd::std_specs::btree::group_btree_axioms, vstd::laws_cmp::group_laws_cmp};

/// How instruction submodules are treated.
#[derive(Clone, Copy, Debug, PartialEq, Eq, Structural)]
pub enum SubmoduleMode {
    /// Ignore instruction submodules entirely; used for the top module that
    /// only proves properties of the selectors.
    Ignore,
    /// Recursively inline instruction submodule constraints into the current module.
    Inline,
    /// Keep instruction submodules separate (currently behaves like `Inline`).
    Submodule,
}

/// How the shift-right-with-carry byte operation is summarized.
#[derive(Clone, Copy, Debug, PartialEq, Eq, Structural)]
pub enum ShrCarrySummaryMode {
    /// Keep it abstract as a module call.
    AbstractModule,
    /// Lower it into explicit case-split constraints.
    Precise,
}

/// Which payload slots of an instruction lookup feed which target columns.
#[derive(Clone, Copy, Debug, PartialEq, Eq, Structural)]
pub enum IndexSlice {
    Range { start: usize, end: usize },
    Single(usize),
}

/// How an instruction lookup with a given opcode is routed: the chip that
/// implements it, the selector enabled in that chip, and how lookup payload
/// slots map onto the chip's named columns.
pub struct OpcodeSpec {
    pub chip: String,
    pub selector: String,
    pub arg_to_colname: Vec<(IndexSlice, String)>,
}

/// Column metadata of a chip: the column range of each named column, the
/// selector columns, and the `is_real` column if there is one.
pub struct PicusInfo {
    pub name_to_colrange: Vec<(String, (usize, usize))>,
    pub selector_indices: Vec<(usize, String)>,
    pub is_real_index: Option<usize>,
}

/// One step of a chip's constraint evaluation, over expressions whose
/// variable `i` stands for main-trace column `i`.
pub enum AirOp {
    AssertZero(PicusExpr),
    Send(AirLookup<PicusExpr>),
    Receive(AirLookup<PicusExpr>),
}

/// A chip: its name, trace widths, column metadata and constraint evaluation.
pub struct ChipDesc {
    pub name: String,
    pub width: usize,
    pub preprocessed_width: usize,
    pub picus_info: PicusInfo,
    pub air: Vec<AirOp>,
}

/// A deferred call into an instruction chip, with the main-trace cells the
/// call binds.
pub struct ConcretePendingTask {
    pub chip_name: String,
    pub main_vars: Vec<PicusAtom>,
    pub multiplicity: PicusExpr,
    pub selector: String,
}

#[verifier::ext_equal]
pub struct TaskView {
    pub chip_name: Seq<char>,
    pub main_vars: Seq<PicusAtom>,
    pub multiplicity: PicusExpr,
    pub selector: Seq<char>,
}

impl View for ConcretePendingTask {
    type V = TaskView;

    open spec fn view(&self) -> TaskView {
        TaskView {
            chip_name: self.chip_name@,
            main_vars: self.main_vars@,
            multiplicity: self.multiplicity,
            selector: self.selector@,
        }
    }
}

impl ConcretePendingTask {
    /// The variable at column `col_num` of the target chip.
    pub fn get_actual_var_num_for_col(&self, col_num: usize) -> (v: usize)
        requires
            col_num < self.main_vars@.len(),
            self.main_vars@[col_num as int] is Var,
        ensures
            self.main_vars@[col_num as int] == PicusAtom::Var(v),
    {
        let main_var = self.main_vars[col_num];
        match main_var {
            PicusAtom::Var(v) => v,
            PicusAtom::Const(_) => {
                assert(false);
                0
            },
        }
    }
}

/// A deferred call whose target could not be resolved.
pub struct SymbolicPendingTask {
    pub selector: PicusExpr,
    pub multiplicity: PicusExpr,
}

/// The part of the builder that extraction changes.
#[verifier::ext_equal]
pub struct ExtractState {
    pub module: ModuleView,
    pub aux: Seq<ModuleView>,
    pub tasks: Seq<TaskView>,
    pub symbolic: Seq<(PicusExpr, PicusExpr)>,
    pub fresh: int,
}

/// The auxiliary modules hold one named `name`.
pub open spec fn has_module(aux: Seq<ModuleView>, name: Seq<char>) -> bool {
    exists|i: int| 0 <= i < aux.len() && aux[i].name == name
}

impl ExtractState {
    pub open spec fn add_constraints(self, cs: Seq<PicusConstraint>) -> ExtractState {
        ExtractState { module: ModuleView { constraints: self.module.constraints + cs, ..self.module }, ..self }
    }

    pub open spec fn add_inputs(self, es: Seq<PicusExpr>) -> ExtractState {
        ExtractState { module: ModuleView { inputs: self.module.inputs + es, ..self.module }, ..self }
    }

    pub open spec fn add_outputs(self, es: Seq<PicusExpr>) -> ExtractState {
        ExtractState { module: ModuleView { outputs: self.module.outputs + es, ..self.module }, ..self }
    }

    pub open spec fn add_call(self, c: CallView) -> ExtractState {
        ExtractState { module: ModuleView { calls: self.module.calls.push(c), ..self.module }, ..self }
    }

    pub open spec fn add_assumed(self, e: PicusExpr) -> ExtractState {
        ExtractState {
            module: ModuleView { assume_deterministic: self.module.assume_deterministic.push(e), ..self.module },
            ..self
        }
    }

    pub open spec fn with_fresh(self, f: int) -> ExtractState {
        ExtractState { fresh: f, ..self }
    }

    /// Adds an empty auxiliary module named `name` unless one exists.
    pub open spec fn ensure_aux(self, name: Seq<char>, num_inputs: int, num_outputs: int) -> ExtractState {
        if has_module(self.aux, name) {
            self
        } else {
            ExtractState { aux: put_module(self.aux, empty_module_with_ports(name, num_inputs, num_outputs)), ..self }
        }
    }
}

/// The part of the builder that stays fixed during extraction.
pub struct BuilderConfig {
    pub main: Seq<PicusAtom>,
    pub chips: Seq<ChipDesc>,
    pub specs: Seq<OpcodeSpec>,
    pub mode: SubmoduleMode,
    pub shr_mode: ShrCarrySummaryMode,
    pub env: Map<usize, u64>,
}

/// The builder that records a chip's constraints as a Picus module.
pub struct PicusBuilder<'chips> {
    pub preprocessed: Vec<PicusAtom>,
    pub main: Vec<PicusAtom>,
    pub public_values: Vec<PicusAtom>,
    pub picus_module: PicusModule,
    pub aux_modules: Vec<PicusModule>,
    pub chips: &'chips [ChipDesc],
    pub opcode_specs: &'chips [OpcodeSpec],
    pub extract_modularly: bool,
    pub submodule_mode: SubmoduleMode,
    pub shr_carry_summary_mode: ShrCarrySummaryMode,
    /// Fixed assignments used to specialize expressions during extraction.
    pub specialization_env: BTreeMap<usize, u64>,
    pub concrete_pending_tasks: Vec<ConcretePendingTask>,
    pub symbolic_pending_tasks: Vec<SymbolicPendingTask>,
    /// The next variable number that is still unused.
    pub fresh_var_ctr: usize,
}

/// The index of the first chip named `name`.
pub open spec fn first_chip_with_name(chips: Seq<ChipDesc>, name: Seq<char>) -> int
    decreases chips.len(),
{
    if chips.len() == 0 {
        -1
    } else if chips[0].name@ == name {
        0
    } else {
        let r = first_chip_with_name(chips.drop_first(), name);
        if r < 0 { -1 } else { r + 1 }
    }
}

/// Facts on `first_chip_with_name`.
pub proof fn lemma_first_chip(chips: Seq<ChipDesc>, name: Seq<char>)
    ensures
        -1 <= first_chip_with_name(chips, name) < chips.len(),
        first_chip_with_name(chips, name) >= 0 ==> chips[first_chip_with_name(chips, name)].name@ == name,
        first_chip_with_name(chips, name) >= 0 ==> forall|j: int|
            0 <= j < first_chip_with_name(chips, name) ==> chips[j].name@ != name,
        first_chip_with_name(chips, name) < 0 <==> forall|j: int| 0 <= j < chips.len() ==> chips[j].name@ != name,
    decreases chips.len(),
{
    if chips.len() > 0 && chips[0].name@ != name {
        lemma_first_chip(chips.drop_first(), name);
        let r = first_chip_with_name(chips.drop_first(), name);
        assert forall|j: int| 0 < j < chips.len() implies chips[j] == chips.drop_first()[j - 1] by {}
        if r < 0 {
            assert forall|j: int| 0 <= j < chips.len() implies chips[j].name@ != name by {
                if j > 0 {
                    assert(chips[j] == chips.drop_first()[j - 1]);
                }
            }
        }
    }
}

/// The chip named `name` exists.
pub open spec fn has_chip(chips: Seq<ChipDesc>, name: Seq<char>) -> bool {
    exists|j: int| 0 <= j < chips.len() && chips[j].name@ == name
}

/// The variable expressions for `n` columns starting at `start`.
pub open spec fn atom_vars(start: int, n: int) -> Seq<PicusAtom> {
    Seq::new(n as nat, |i: int| PicusAtom::Var((start + i) as usize))
}

/// A main row after replacing the fixed variables by their values.
pub open spec fn specialize_row(row: Seq<PicusAtom>, env: Map<usize, u64>) -> Seq<PicusAtom> {
    row.map_values(
        |a: PicusAtom|
            match a {
                PicusAtom::Var(v) => if env.contains_key(v) {
                    PicusAtom::Const(env[v])
                } else {
                    a
                },
                PicusAtom::Const(_) => a,
            },
    )
}

/// An expression as the builder specializes it: unchanged when nothing is
/// fixed, partially evaluated otherwise.
pub open spec fn specialize(env: Map<usize, u64>, e: PicusExpr) -> PicusExpr {
    if env.is_empty() {
        e
    } else {
        partial_eval(e, env)
    }
}

fn atom_vars_exec(start: usize, n: usize) -> (r: Vec<PicusAtom>)
    requires
        start + n <= usize::MAX,
    ensures
        r@ == atom_vars(start as int, n as int),
{
    let mut r: Vec<PicusAtom> = Vec::new();
    let mut i: usize = 0;
    while i < n
        invariant
            i <= n,
            start + n <= usize::MAX,
            r@ == atom_vars(start as int, i as int),
        decreases n - i,
    {
        r.push(PicusAtom::Var(start + i));
        assert(r@ =~= atom_vars(start as int, i + 1));
        i += 1;
    }
    r
}

impl<'chips> PicusBuilder<'chips> {
    /// The part of the builder that extraction changes.
    pub open spec fn state(&self) -> ExtractState {
        ExtractState {
            module: self.picus_module@,
            aux: self.aux_modules@.map_values(|m: PicusModule| m@),
            tasks: self.concrete_pending_tasks@.map_values(|t: ConcretePendingTask| t@),
            symbolic: self.symbolic_pending_tasks@.map_values(
                |t: SymbolicPendingTask| (t.selector, t.multiplicity),
            ),
            fresh: self.fresh_var_ctr as int,
        }
    }

    /// The part of the builder that stays fixed during extraction.
    pub open spec fn config(&self) -> BuilderConfig {
        BuilderConfig {
            main: self.main@,
            chips: self.chips@,
            specs: self.opcode_specs@,
            mode: self.submodule_mode,
            shr_mode: self.shr_carry_summary_mode,
            env: self.specialization_env@,
        }
    }

    /// Both builders extract with the same setup.
    pub open spec fn same_setup(&self, other: &Self) -> bool {
        &&& self.preprocessed@ == other.preprocessed@
        &&& self.main@ == other.main@
        &&& self.public_values@ == other.public_values@
        &&& self.chips@ == other.chips@
        &&& self.opcode_specs@ == other.opcode_specs@
        &&& self.extract_modularly == other.extract_modularly
        &&& self.submodule_mode == other.submodule_mode
        &&& self.shr_carry_summary_mode == other.shr_carry_summary_mode
        &&& self.specialization_env@ == other.specialization_env@
    }

    /// Creates a builder for `chip_to_analyze`. The main row is `main_vars` when
    /// given (one cell per column) and the variables `0..width` otherwise; its
    /// variables fixed by `specialization_env` become constants. Public values
    /// and preprocessed cells are the variables `0..n`.
    pub fn new(
        chip_to_analyze: &ChipDesc,
        picus_module: PicusModule,
        chips: &'chips [ChipDesc],
        opcode_specs: &'chips [OpcodeSpec],
        main_vars: Option<Vec<PicusAtom>>,
        specialization_env: Option<BTreeMap<usize, u64>>,
        submodule_mode: Option<SubmoduleMode>,
        shr_carry_summary_mode: Option<ShrCarrySummaryMode>,
        num_public_values: usize,
        fresh_var_ctr: usize,
    ) -> (builder: Self)
        requires
            main_vars matches Some(v) ==> v@.len() == chip_to_analyze.width,
        ensures
            builder.public_values@ == atom_vars(0, num_public_values as int),
            builder.preprocessed@ == atom_vars(0, chip_to_analyze.preprocessed_width as int),
            builder.specialization_env@ == (match specialization_env {
                Some(env) => env@,
                None => Map::<usize, u64>::empty(),
            }),
            builder.main@ == specialize_row(
                match main_vars {
                    Some(v) => v@,
                    None => atom_vars(0, chip_to_analyze.width as int),
                },
                builder.specialization_env@,
            ),
            builder.picus_module@ == picus_module@,
            builder.aux_modules@.len() == 0,
            builder.chips@ == chips@,
            builder.opcode_specs@ == opcode_specs@,
            !builder.extract_modularly,
            builder.submodule_mode == (match submodule_mode {
                Some(m) => m,
                None => SubmoduleMode::Inline,
            }),
            builder.shr_carry_summary_mode == (match shr_carry_summary_mode {
                Some(m) => m,
                None => ShrCarrySummaryMode::AbstractModule,
            }),
            builder.concrete_pending_tasks@.len() == 0,
            builder.symbolic_pending_tasks@.len() == 0,
            builder.fresh_var_ctr == fresh_var_ctr,
    {
        let width = chip_to_analyze.width;
        let specialization_env = match specialization_env {
            Some(env) => env,
            None => BTreeMap::new(),
        };
        let public_values = atom_vars_exec(0, num_public_values);
        let preprocessed = atom_vars_exec(0, chip_to_analyze.preprocessed_width);
        let mut main = match main_vars {
            Some(vars) => vars,
            None => atom_vars_exec(0, width),
        };
        let ghost row = main@;
        let mut i: usize = 0;
        while i < main.len()
            invariant
                i <= main@.len(),
                main@.len() == row.len(),
                forall|j: int| 0 <= j < i ==> #[trigger] main@[j] == specialize_row(row, specialization_env@)[j],
                forall|j: int| i <= j < main@.len() ==> #[trigger] main@[j] == row[j],
            decreases main@.len() - i,
        {
            if let PicusAtom::Var(v) = main[i] {
                if let Some(value) = specialization_env.get(&v) {
                    main.set(i, PicusAtom::Const(*value));
                }
            }
            i += 1;
        }
        assert(main@ =~= specialize_row(row, specialization_env@));
        let b = PicusBuilder {
            preprocessed,
            main,
            public_values,
            picus_module,
            aux_modules: Vec::new(),
            chips,
            opcode_specs,
            extract_modularly: false,
            submodule_mode: match submodule_mode {
                Some(m) => m,
                None => SubmoduleMode::Inline,
            },
            shr_carry_summary_mode: match shr_carry_summary_mode {
                Some(m) => m,
                None => ShrCarrySummaryMode::AbstractModule,
            },
            specialization_env,
            concrete_pending_tasks: Vec::new(),
            symbolic_pending_tasks: Vec::new(),
            fresh_var_ctr,
        };
        b
    }

    /// The main trace row.
    pub fn main(&self) -> (row: &Vec<PicusAtom>)
        ensures
            row@ == self.main@,
    {
        &self.main
    }

    /// Specializes an expression under the builder's fixed assignments.
    pub fn specialize_expr(&self, expr: &PicusExpr) -> (r: PicusExpr)
        ensures
            r == specialize(self.specialization_env@, *expr),
    {
        if self.specialization_env.is_empty() {
            expr.duplicate()
        } else {
            partial_evaluate_expr(expr, &self.specialization_env)
        }
    }

    /// Whether this builder builds the selector (top) module.
    pub fn is_selector_module_builder(&self) -> (b: bool)
        ensures
            b == (self.submodule_mode == SubmoduleMode::Ignore),
    {
        self.submodule_mode == SubmoduleMode::Ignore
    }

    /// The first chip named `name`.
    pub fn get_chip(&self, name: &str) -> (chip: &'chips ChipDesc)
        requires
            has_chip(self.chips@, name@),
        ensures
            chip == self.chips@[first_chip_with_name(self.chips@, name@)],
            chip.name@ == name@,
    {
        proof {
            lemma_first_chip(self.chips@, name@);
        }
        let wanted = name.to_owned();
        let mut i: usize = 0;
        while i < self.chips.len()
            invariant
                i <= self.chips@.len(),
                wanted@ == name@,
                forall|j: int| 0 <= j < i ==> self.chips@[j].name@ != name@,
                has_chip(self.chips@, name@),
            decreases self.chips@.len() - i,
        {
            if self.chips[i].name == wanted {
                proof {
                    lemma_first_chip(self.chips@, name@);
                }
                return &self.chips[i];
            }
            i += 1;
        }
        assert(false);
        &self.chips[0]
    }

    /// Records the constraint `x == 0`.
    pub fn assert_zero(&mut self, x: PicusExpr)
        ensures
            final(self).same_setup(old(self)),
            final(self).state() == (ExtractState {
                module: ModuleView {
                    constraints: old(self).state().module.constraints.push(c_zero(x)),
                    ..old(self).state().module
                },
                ..old(self).state()
            }),
    {
        self.picus_module.constraints.push(PicusConstraint::Eq(Box::new(x)));
    }
}

impl<'chips> PicusBuilder<'chips> {
    /// Records a constraint.
    pub fn push_constraint(&mut self, c: PicusConstraint)
        ensures
            final(self).same_setup(old(self)),
            final(self).state() == old(self).state().add_constraints(seq![c]),
    {
        self.picus_module.constraints.push(c);
        assert(self.state() =~= old(self).state().add_constraints(seq![c]));
    }

    /// Marks an input port.
    pub fn push_input(&mut self, e: PicusExpr)
        ensures
            final(self).same_setup(old(self)),
            final(self).state() == old(self).state().add_inputs(seq![e]),
    {
        self.picus_module.inputs.push(e);
        assert(self.state() =~= old(self).state().add_inputs(seq![e]));
    }

    /// Marks an output port.
    pub fn push_output(&mut self, e: PicusExpr)
        ensures
            final(self).same_setup(old(self)),
            final(self).state() == old(self).state().add_outputs(seq![e]),
    {
        self.picus_module.outputs.push(e);
        assert(self.state() =~= old(self).state().add_outputs(seq![e]));
    }

    /// Records a module call.
    pub fn push_call(&mut self, c: PicusCall)
        ensures
            final(self).same_setup(old(self)),
            final(self).state() == old(self).state().add_call(c@),
    {
        let ghost cv = c@;
        self.picus_module.calls.push(c);
        assert(self.state().module.calls =~= old(self).state().module.calls.push(cv));
        assert(self.state() =~= old(self).state().add_call(cv));
    }

    /// Records a value assumed to be deterministic.
    pub fn push_assumed(&mut self, e: PicusExpr)
        ensures
            final(self).same_setup(old(self)),
            final(self).state() == old(self).state().add_assumed(e),
    {
        self.picus_module.assume_deterministic.push(e);
        assert(self.state() =~= old(self).state().add_assumed(e));
    }

    /// A variable not used before.
    pub fn fresh_var(&mut self) -> (v: PicusExpr)
        requires
            old(self).fresh_var_ctr < usize::MAX,
        ensures
            v == PicusExpr::Var(old(self).fresh_var_ctr),
            final(self).same_setup(old(self)),
            final(self).state() == old(self).state().with_fresh(old(self).fresh_var_ctr + 1),
    {
        let v = self.fresh_var_ctr;
        self.fresh_var_ctr = v + 1;
        assert(self.state() =~= old(self).state().with_fresh(old(self).fresh_var_ctr + 1));
        PicusExpr::Var(v)
    }

    /// Whether an auxiliary module named `name` exists.
    pub fn has_aux_module(&self, name: &String) -> (b: bool)
        ensures
            b == has_module(self.state().aux, name@),
    {
        let mut i: usize = 0;
        while i < self.aux_modules.len()
            invariant
                i <= self.aux_modules@.len(),
                forall|j: int| 0 <= j < i ==> self.aux_modules@[j].name@ != name@,
            decreases self.aux_modules@.len() - i,
        {
            if self.aux_modules[i].name == *name {
                assert(self.state().aux[i as int].name == name@);
                return true;
            }
            i += 1;
        }
        assert forall|j: int| 0 <= j < self.state().aux.len() implies self.state().aux[j].name != name@ by {
            assert(self.state().aux[j] == self.aux_modules@[j]@);
        }
        false
    }

    /// Adds an empty auxiliary module named `name` with fresh ports unless one exists.
    pub fn ensure_aux_module(&mut self, name: String, num_inputs: usize, num_outputs: usize)
        requires
            num_inputs + num_outputs <= usize::MAX,
        ensures
            final(self).same_setup(old(self)),
            final(self).state() == old(self).state().ensure_aux(name@, num_inputs as int, num_outputs as int),
    {
        if !self.has_aux_module(&name) {
            let m = PicusModule::build_empty(name, num_inputs, num_outputs);
            let ghost mv = m@;
            put_module_into(&mut self.aux_modules, m);
            assert(self.state() =~= old(self).state().ensure_aux(mv.name, num_inputs as int, num_outputs as int));
        }
    }
}

} // verus!
