//! Instruction lookups a chip sends become deferred calls into the chip that
//! implements the instruction; together with the other interactions they make
//! up the builder's `send` and `receive`.
use vstd::prelude::*;
use crate::lookup::{AirLookup, LookupKind};
use crate::pcl::{PicusAtom, PicusExpr, PicusConstraint, c_equal};
use crate::picus_builder::{
    PicusBuilder, BuilderConfig, ExtractState, TaskView, ChipDesc, OpcodeSpec, IndexSlice, ConcretePendingTask,
    SubmoduleMode, first_chip_with_name, has_chip, atom_vars, specialize, lemma_first_chip,
};
use crate::picus_bytes::{byte_step, byte_lookup_ok, byte_fresh_count};
use crate::picus_ports::{memory_step, receive_instruction_step, receive_instruction_ok, memory_access_ok};

verus! {

/// The column range of the named column (the last entry with that name).
pub open spec fn colrange_in(entries: Seq<(String, (usize, usize))>, name: Seq<char>) -> Option<(usize, usize)>
    decreases entries.len(),
{
    if entries.len() == 0 {
        None
    } else if entries.last().0@ == name {
        Some(entries.last().1)
    } else {
        colrange_in(entries.drop_last(), name)
    }
}

/// Looks up the column range of the named column.
pub fn find_colrange(entries: &[(String, (usize, usize))], name: &String) -> (r: Option<(usize, usize)>)
    ensures
        r == colrange_in(entries@, name@),
{
    let mut i = entries.len();
    assert(entries@.subrange(0, i as int) =~= entries@);
    while i > 0
        invariant
            i <= entries@.len(),
            colrange_in(entries@, name@) == colrange_in(entries@.subrange(0, i as int), name@),
        decreases i,
    {
        let ghost sub = entries@.subrange(0, i as int);
        assert(sub.drop_last() =~= entries@.subrange(0, i - 1));
        if entries[i - 1].0 == *name {
            return Some(entries[i - 1].1);
        }
        i -= 1;
    }
    assert(entries@.subrange(0, 0).len() == 0);
    None
}

/// Places one message value in the target row: variables and constants are
/// placed as they are; any other expression is bound to a fresh variable.
pub open spec fn place_value(row: Seq<PicusAtom>, st: ExtractState, pos: int, v: PicusExpr) -> (Seq<PicusAtom>, ExtractState) {
    match v {
        PicusExpr::Var(x) => (row.update(pos, PicusAtom::Var(x)), st),
        PicusExpr::Const(c) => (row.update(pos, PicusAtom::Const(c)), st),
        _ => (
            row.update(pos, PicusAtom::Var(st.fresh as usize)),
            st.add_constraints(seq![c_equal(PicusExpr::Var(st.fresh as usize), v)]).with_fresh(st.fresh + 1),
        ),
    }
}

/// Places `values[start..end]` in the columns starting at `col0`.
pub open spec fn place_range(
    row: Seq<PicusAtom>,
    st: ExtractState,
    values: Seq<PicusExpr>,
    start: int,
    end: int,
    col0: int,
) -> (Seq<PicusAtom>, ExtractState)
    decreases end - start,
{
    if end <= start {
        (row, st)
    } else {
        let p = place_range(row, st, values, start, end - 1, col0);
        place_value(p.0, p.1, col0 + (end - 1 - start), values[end - 1])
    }
}

/// Places the payload slots of one argument in the columns of the named column.
pub open spec fn place_arg(
    row: Seq<PicusAtom>,
    st: ExtractState,
    values: Seq<PicusExpr>,
    slice: IndexSlice,
    range: (usize, usize),
) -> (Seq<PicusAtom>, ExtractState) {
    match slice {
        IndexSlice::Range { start, end } => place_range(row, st, values, start as int, end as int, range.0 as int),
        IndexSlice::Single(col) => place_value(row, st, range.0 as int, values[col as int]),
    }
}

/// Places all arguments, in order.
pub open spec fn place_args(
    row: Seq<PicusAtom>,
    st: ExtractState,
    values: Seq<PicusExpr>,
    args: Seq<(IndexSlice, String)>,
    entries: Seq<(String, (usize, usize))>,
) -> (Seq<PicusAtom>, ExtractState)
    decreases args.len(),
{
    if args.len() == 0 {
        (row, st)
    } else {
        let p = place_args(row, st, values, args.drop_last(), entries);
        place_arg(p.0, p.1, values, args.last().0, colrange_in(entries, args.last().1@).unwrap())
    }
}

/// One argument can be placed: its column exists and is wide enough, and its
/// payload slots exist.
pub open spec fn arg_ok(values: Seq<PicusExpr>, arg: (IndexSlice, String), entries: Seq<(String, (usize, usize))>, width: int) -> bool {
    &&& colrange_in(entries, arg.1@) is Some
    &&& {
        let r = colrange_in(entries, arg.1@).unwrap();
        &&& r.0 <= r.1
        &&& match arg.0 {
            IndexSlice::Range { start, end } => {
                &&& start <= end <= values.len()
                &&& r.1 - r.0 >= end - start
                &&& r.0 + (end - start) <= width
            },
            IndexSlice::Single(col) => {
                &&& r.1 - r.0 == 1
                &&& col < values.len()
                &&& r.0 < width
            },
        }
    }
}

/// Number of payload slots the arguments read.
pub open spec fn arg_slots(args: Seq<(IndexSlice, String)>) -> int
    decreases args.len(),
{
    if args.len() == 0 {
        0
    } else {
        arg_slots(args.drop_last()) + match args.last().0 {
            IndexSlice::Range { start, end } => if start <= end { end - start } else { 0 },
            IndexSlice::Single(_) => 1,
        }
    }
}

/// The instruction lookup's opcode.
pub open spec fn opcode_of(values: Seq<PicusExpr>) -> u64 {
    values[6]->Const_0
}

/// An instruction lookup can be routed: its opcode is a known constant, the
/// chip implementing it exists, and every argument can be placed.
pub open spec fn call_ok(chips: Seq<ChipDesc>, specs: Seq<OpcodeSpec>, fresh: int, values: Seq<PicusExpr>) -> bool {
    &&& values.len() > 6
    &&& values[6] is Const
    &&& opcode_of(values) < specs.len()
    &&& {
        let spec = specs[opcode_of(values) as int];
        &&& has_chip(chips, spec.chip@)
        &&& {
            let target = chips[first_chip_with_name(chips, spec.chip@)];
            &&& forall|k: int|
                0 <= k < spec.arg_to_colname@.len() ==> #[trigger] arg_ok(
                    values,
                    spec.arg_to_colname@[k],
                    target.picus_info.name_to_colrange@,
                    target.width as int,
                )
            &&& fresh + target.width + arg_slots(spec.arg_to_colname@) <= usize::MAX
        }
    }
}

/// The target row of a call and the extraction state after building it: the
/// row starts as fresh variables and the arguments are placed into it.
pub open spec fn call_row(chips: Seq<ChipDesc>, specs: Seq<OpcodeSpec>, st: ExtractState, values: Seq<PicusExpr>) -> (Seq<PicusAtom>, ExtractState) {
    let spec = specs[opcode_of(values) as int];
    let target = chips[first_chip_with_name(chips, spec.chip@)];
    place_args(
        atom_vars(st.fresh, target.width as int),
        st.with_fresh(st.fresh + target.width),
        values,
        spec.arg_to_colname@,
        target.picus_info.name_to_colrange@,
    )
}

/// What an instruction lookup sent by a chip adds: a deferred call into the
/// chip implementing the opcode, with the selector the opcode enables.
pub open spec fn instruction_send_step(
    chips: Seq<ChipDesc>,
    specs: Seq<OpcodeSpec>,
    st: ExtractState,
    m: PicusExpr,
    values: Seq<PicusExpr>,
) -> ExtractState {
    let spec = specs[opcode_of(values) as int];
    let target = chips[first_chip_with_name(chips, spec.chip@)];
    let p = call_row(chips, specs, st, values);
    ExtractState {
        tasks: p.1.tasks.push(TaskView { chip_name: target.name@, main_vars: p.0, multiplicity: m, selector: spec.selector@ }),
        ..p.1
    }
}

/// A message as the builder specializes it.
pub open spec fn specialize_all(env: Map<usize, u64>, values: Seq<PicusExpr>) -> Seq<PicusExpr> {
    values.map_values(|e: PicusExpr| specialize(env, e))
}

/// What sending a lookup adds to the extraction state. Values are specialized
/// first so that opcode routing sees constants whenever the fixed assignments
/// decide them.
pub open spec fn send_step(cfg: BuilderConfig, st: ExtractState, kind: LookupKind, values: Seq<PicusExpr>, m: PicusExpr) -> ExtractState {
    let sv = specialize_all(cfg.env, values);
    let sm = specialize(cfg.env, m);
    match kind {
        LookupKind::Byte => byte_step(cfg.shr_mode, st, sm, sv),
        LookupKind::Memory => memory_step(st, sm, sv, true),
        LookupKind::Instruction => if cfg.mode == SubmoduleMode::Ignore {
            st
        } else {
            instruction_send_step(cfg.chips, cfg.specs, st, sm, sv)
        },
        _ => st,
    }
}

/// The lookups that can be sent.
pub open spec fn send_allowed(cfg: BuilderConfig, st: ExtractState, kind: LookupKind, values: Seq<PicusExpr>, m: PicusExpr) -> bool {
    let sv = specialize_all(cfg.env, values);
    let sm = specialize(cfg.env, m);
    match kind {
        LookupKind::Byte => byte_lookup_ok(cfg.mode == SubmoduleMode::Ignore, sv) && st.fresh + byte_fresh_count(sv)
            <= usize::MAX,
        LookupKind::Memory => sm != PicusExpr::Const(0) ==> memory_access_ok(st.fresh, sv),
        LookupKind::Instruction => cfg.mode != SubmoduleMode::Ignore ==> call_ok(cfg.chips, cfg.specs, st.fresh, sv),
        _ => false,
    }
}

/// What receiving a lookup adds to the extraction state.
pub open spec fn receive_step(cfg: BuilderConfig, st: ExtractState, kind: LookupKind, values: Seq<PicusExpr>, m: PicusExpr) -> ExtractState {
    let sv = specialize_all(cfg.env, values);
    let sm = specialize(cfg.env, m);
    match kind {
        LookupKind::Instruction => if cfg.mode == SubmoduleMode::Ignore {
            st.add_assumed(sv[6])
        } else {
            receive_instruction_step(st, sm, sv)
        },
        LookupKind::Memory => memory_step(st, sm, sv, false),
        _ => st,
    }
}

/// The lookups that can be received.
pub open spec fn receive_allowed(cfg: BuilderConfig, st: ExtractState, kind: LookupKind, values: Seq<PicusExpr>, m: PicusExpr) -> bool {
    let sv = specialize_all(cfg.env, values);
    let sm = specialize(cfg.env, m);
    match kind {
        LookupKind::Instruction => if cfg.mode == SubmoduleMode::Ignore {
            sv.len() > 6
        } else {
            receive_instruction_ok(sm, sv) && (sm != PicusExpr::Const(0) ==> st.fresh + 18 <= usize::MAX)
        },
        LookupKind::Memory => sm != PicusExpr::Const(0) ==> memory_access_ok(st.fresh, sv),
        _ => false,
    }
}

impl<'chips> PicusBuilder<'chips> {
    /// Places one message value at `pos` of the target row.
    fn place_value_exec(&mut self, row: &mut Vec<PicusAtom>, pos: usize, v: &PicusExpr)
        requires
            pos < old(row)@.len(),
            old(self).fresh_var_ctr < usize::MAX,
        ensures
            final(self).same_setup(old(self)),
            final(row)@.len() == old(row)@.len(),
            (final(row)@, final(self).state()) == place_value(old(row)@, old(self).state(), pos as int, *v),
            final(self).fresh_var_ctr <= old(self).fresh_var_ctr + 1,
    {
        match v {
            PicusExpr::Var(x) => {
                row.set(pos, PicusAtom::Var(*x));
            },
            PicusExpr::Const(c) => {
                row.set(pos, PicusAtom::Const(*c));
            },
            _ => {
                let id = self.fresh_var_ctr;
                let _ = self.fresh_var();
                self.push_constraint(PicusConstraint::new_equality(PicusExpr::Var(id), v.duplicate()));
                row.set(pos, PicusAtom::Var(id));
                assert(self.state() =~= place_value(old(row)@, old(self).state(), pos as int, *v).1);
            },
        }
        assert(row@ =~= place_value(old(row)@, old(self).state(), pos as int, *v).0);
    }

    /// The target row of a call into the chip implementing the instruction
    /// lookup `message_values`: fresh variables, with the lookup's arguments
    /// placed in the columns the opcode's routing names.
    pub fn get_main_vars_for_call(&mut self, message_values: &[PicusExpr]) -> (row: Option<Vec<PicusAtom>>)
        requires
            call_ok(old(self).chips@, old(self).opcode_specs@, old(self).fresh_var_ctr as int, message_values@),
        ensures
            final(self).same_setup(old(self)),
            row is Some,
            (row.unwrap()@, final(self).state()) == call_row(old(self).chips@, old(self).opcode_specs@, old(self).state(), message_values@),
    {
        let values = message_values;
        let opcode = match &values[6] {
            PicusExpr::Const(v) => *v,
            _ => {
                assert(false);
                0
            },
        };
        let spec = &self.opcode_specs[opcode as usize];
        let target_chip = self.get_chip(spec.chip.as_str());
        let width = target_chip.width;
        let start_var = self.fresh_var_ctr;
        proof {
            lemma_arg_slots_nonneg(spec.arg_to_colname@);
        }
        let mut target_main_vals: Vec<PicusAtom> = Vec::new();
        let mut j: usize = 0;
        while j < width
            invariant
                j <= width,
                self.same_setup(old(self)),
                self.fresh_var_ctr == start_var + j,
                start_var == old(self).fresh_var_ctr,
                start_var + width <= usize::MAX,
                target_main_vals@ == atom_vars(start_var as int, j as int),
                self.state() == old(self).state().with_fresh(start_var + j),
            decreases width - j,
        {
            let v = self.fresh_var();
            target_main_vals.push(PicusAtom::Var(start_var + j));
            assert(target_main_vals@ =~= atom_vars(start_var as int, j + 1));
            assert(self.state() =~= old(self).state().with_fresh(start_var + j + 1));
            j += 1;
        }
        let ghost entries = target_chip.picus_info.name_to_colrange@;
        let ghost args = spec.arg_to_colname@;
        let ghost row0 = target_main_vals@;
        let ghost st0 = self.state();
        assert(args.subrange(0, 0) =~= Seq::<(IndexSlice, String)>::empty());
        let mut k: usize = 0;
        while k < spec.arg_to_colname.len()
            invariant
                k <= args.len(),
                args == spec.arg_to_colname@,
                entries == target_chip.picus_info.name_to_colrange@,
                width == target_chip.width,
                target_main_vals@.len() == width,
                self.same_setup(old(self)),
                forall|kk: int| 0 <= kk < args.len() ==> #[trigger] arg_ok(values@, args[kk], entries, width as int),
                self.fresh_var_ctr + arg_slots(args) - arg_slots(args.subrange(0, k as int)) <= usize::MAX,
                (target_main_vals@, self.state()) == place_args(row0, st0, values@, args.subrange(0, k as int), entries),
            decreases args.len() - k,
        {
            assert(args.subrange(0, k + 1).drop_last() =~= args.subrange(0, k as int));
            assert(args.subrange(0, k + 1).last() == args[k as int]);
            assert(arg_ok(values@, args[k as int], entries, width as int));
            let slice = spec.arg_to_colname[k].0;
            let colrange = match find_colrange(target_chip.picus_info.name_to_colrange.as_slice(), &spec.arg_to_colname[k].1) {
                Some(r) => r,
                None => {
                    assert(false);
                    (0, 0)
                },
            };
            proof {
                lemma_arg_slots_prefix(args, k as int);
            }
            let ghost f0 = self.fresh_var_ctr as int;
            let ghost rest = arg_slots(args) - arg_slots(args.subrange(0, k + 1));
            match slice {
                IndexSlice::Range { start, end } => {
                    let ghost row_a = target_main_vals@;
                    let ghost st_a = self.state();
                    assert(f0 + (end - start) + rest <= usize::MAX);
                    let mut i = start;
                    while i < end
                        invariant
                            start <= i <= end,
                            end <= values@.len(),
                            colrange.0 + (end - start) <= width,
                            target_main_vals@.len() == width,
                            self.same_setup(old(self)),
                            self.fresh_var_ctr <= f0 + (i - start),
                            f0 + (end - start) + rest <= usize::MAX,
                            rest >= 0,
                            (target_main_vals@, self.state()) == place_range(row_a, st_a, values@, start as int, i as int, colrange.0 as int),
                        decreases end - i,
                    {
                        let pos = colrange.0 + (i - start);
                        self.place_value_exec(&mut target_main_vals, pos, &values[i]);
                        i += 1;
                    }
                },
                IndexSlice::Single(col) => {
                    self.place_value_exec(&mut target_main_vals, colrange.0, &values[col]);
                },
            }
            k += 1;
        }
        assert(args.subrange(0, args.len() as int) =~= args);
        proof {
            lemma_first_chip(old(self).chips@, spec.chip@);
        }
        Some(target_main_vals)
    }
}

/// The slots of a prefix of the arguments bound those of the whole.
pub proof fn lemma_arg_slots_prefix(args: Seq<(IndexSlice, String)>, k: int)
    requires
        0 <= k < args.len(),
    ensures
        arg_slots(args.subrange(0, k + 1)) == arg_slots(args.subrange(0, k)) + match args[k].0 {
            IndexSlice::Range { start, end } => if start <= end { end - start } else { 0 },
            IndexSlice::Single(_) => 1,
        },
        arg_slots(args.subrange(0, k + 1)) <= arg_slots(args),
{
    assert(args.subrange(0, k + 1).drop_last() =~= args.subrange(0, k));
    lemma_arg_slots_mono(args, k + 1);
}

/// Argument slots are never negative.
pub proof fn lemma_arg_slots_nonneg(args: Seq<(IndexSlice, String)>)
    ensures
        arg_slots(args) >= 0,
    decreases args.len(),
{
    if args.len() > 0 {
        lemma_arg_slots_nonneg(args.drop_last());
    }
}

/// Argument slots only grow with more arguments.
pub proof fn lemma_arg_slots_mono(args: Seq<(IndexSlice, String)>, k: int)
    requires
        0 <= k <= args.len(),
    ensures
        arg_slots(args.subrange(0, k)) <= arg_slots(args),
    decreases args.len() - k,
{
    if k < args.len() {
        lemma_arg_slots_mono(args, k + 1);
        assert(args.subrange(0, k + 1).drop_last() =~= args.subrange(0, k));
    } else {
        assert(args.subrange(0, k) =~= args);
    }
}

impl<'chips> PicusBuilder<'chips> {
    /// Specializes every value of a message.
    pub fn specialize_values(&self, values: &[PicusExpr]) -> (r: Vec<PicusExpr>)
        ensures
            r@ == specialize_all(self.specialization_env@, values@),
    {
        let mut r: Vec<PicusExpr> = Vec::new();
        let mut i: usize = 0;
        while i < values.len()
            invariant
                i <= values@.len(),
                r@ == specialize_all(self.specialization_env@, values@.subrange(0, i as int)),
            decreases values@.len() - i,
        {
            r.push(self.specialize_expr(&values[i]));
            assert(specialize_all(self.specialization_env@, values@.subrange(0, i + 1)) =~= specialize_all(
                self.specialization_env@,
                values@.subrange(0, i as int),
            ).push(specialize(self.specialization_env@, values@[i as int])));
            i += 1;
        }
        assert(values@.subrange(0, values@.len() as int) =~= values@);
        r
    }

    /// Records a lookup the chip sends. Values are specialized first so that
    /// opcode routing sees constants whenever the fixed assignments decide them.
    /// Byte lookups become constraints or module calls; memory reads become
    /// input ports; instruction lookups become deferred calls into the chip that
    /// implements the opcode (not in the selector module).
    pub fn send(&mut self, message: AirLookup<PicusExpr>)
        requires
            send_allowed(old(self).config(), old(self).state(), message.kind, message.values@, message.multiplicity),
        ensures
            final(self).same_setup(old(self)),
            final(self).state() == send_step(old(self).config(), old(self).state(), message.kind, message.values@, message.multiplicity),
    {
        let specialized_values = self.specialize_values(message.values.as_slice());
        let specialized_multiplicity = self.specialize_expr(&message.multiplicity);
        match message.kind {
            LookupKind::Byte => {
                self.handle_byte_interaction(specialized_multiplicity, specialized_values.as_slice());
            },
            LookupKind::Memory => {
                self.handle_memory_interaction(specialized_multiplicity, specialized_values.as_slice(), true);
            },
            LookupKind::Instruction => {
                if self.submodule_mode == SubmoduleMode::Ignore {
                    return;
                }
                let opcode = match &specialized_values[6] {
                    PicusExpr::Const(v) => *v,
                    _ => {
                        assert(false);
                        0
                    },
                };
                let spec = &self.opcode_specs[opcode as usize];
                let target_chip = self.get_chip(spec.chip.as_str());
                let main_vars = self.get_main_vars_for_call(specialized_values.as_slice());
                let ghost st1 = self.state();
                match main_vars {
                    Some(vars) => {
                        let task = ConcretePendingTask {
                            chip_name: target_chip.name.clone(),
                            main_vars: vars,
                            multiplicity: specialized_multiplicity,
                            selector: spec.selector.clone(),
                        };
                        let ghost tv = task@;
                        self.concrete_pending_tasks.push(task);
                        assert(self.state().tasks =~= st1.tasks.push(tv));
                        assert(self.state() =~= send_step(old(self).config(), old(self).state(), message.kind, message.values@, message.multiplicity));
                    },
                    None => {
                        assert(false);
                    },
                }
            },
            _ => {
                assert(false);
            },
        }
    }

    /// Records a lookup the chip receives. In the selector module a received
    /// instruction only marks its opcode deterministic; otherwise it defines
    /// the module's ports. Memory writes become output ports.
    pub fn receive(&mut self, message: AirLookup<PicusExpr>)
        requires
            receive_allowed(old(self).config(), old(self).state(), message.kind, message.values@, message.multiplicity),
        ensures
            final(self).same_setup(old(self)),
            final(self).state() == receive_step(old(self).config(), old(self).state(), message.kind, message.values@, message.multiplicity),
    {
        let specialized_values = self.specialize_values(message.values.as_slice());
        let specialized_multiplicity = self.specialize_expr(&message.multiplicity);
        match message.kind {
            LookupKind::Instruction => {
                if self.submodule_mode == SubmoduleMode::Ignore {
                    self.push_assumed(specialized_values[6].duplicate());
                    return;
                }
                self.handle_receive_instruction(specialized_multiplicity, specialized_values.as_slice());
            },
            LookupKind::Memory => {
                self.handle_memory_interaction(specialized_multiplicity, specialized_values.as_slice(), false);
            },
            _ => {
                assert(false);
            },
        }
    }
}

} // verus!
