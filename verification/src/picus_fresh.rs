//! Fresh variables are new: every variable that extraction has recorded (in
//! the module, in the deferred calls, in the main row it works on) is below
//! the counter from which new variables are handed out, and each step keeps
//! it so.
use vstd::prelude::*;
use crate::pcl::{
    PicusAtom, PicusExpr, PicusConstraint, CallView, ModuleView, partial_eval, partial_eval_constraint,
    gate_constraint, e_add, e_sub, e_mul, c_lt, c_leq, c_zero, c_equal, c_bit, c_implies, c_iff, c_and,
};
use crate::lookup::{ByteOpcode, byte_opcode_code};
use crate::lookup::LookupKind;
use crate::picus_builder::{
    ExtractState, TaskView, ShrCarrySummaryMode, ChipDesc, OpcodeSpec, IndexSlice, BuilderConfig, AirOp,
    SubmoduleMode, specialize, atom_vars, first_chip_with_name, lemma_first_chip,
};
use crate::picus_calls::{
    place_value, place_range, place_args, arg_ok, call_ok, call_row, instruction_send_step, opcode_of, colrange_in,
    arg_slots, lemma_arg_slots_nonneg, specialize_all,
};
use crate::picus_extract::{
    inst_expr, inst_all, air_op_allowed, air_op_step, run_air, analyze_spec, process_tasks, inline_call, call_config,
    call_start, call_env,
};
use crate::picus_ports::{
    bind_port, bind_ports, bind_memory_values, memory_step, receive_instruction_step, receive_instruction_ok,
    memory_access_ok, eq_mul,
};
use crate::picus_program::{pass_result, selector_env, chip_config, chip_start};
use crate::picus_bytes::{
    byte_step, byte_lookup_ok, byte_fresh_count, range_checks, msb_byte_step, shr_carry_constraints, shr_carry_case, and_127_constraints,
};

verus! {

/// Variable `v` occurs in `e`.
pub open spec fn occurs(e: PicusExpr, v: usize) -> bool
    decreases e,
{
    match e {
        PicusExpr::Const(_) => false,
        PicusExpr::Var(x) => x == v,
        PicusExpr::Add(a, b) => occurs(*a, v) || occurs(*b, v),
        PicusExpr::Sub(a, b) => occurs(*a, v) || occurs(*b, v),
        PicusExpr::Mul(a, b) => occurs(*a, v) || occurs(*b, v),
    }
}

/// Variable `v` occurs in `c`.
pub open spec fn occurs_in(c: PicusConstraint, v: usize) -> bool
    decreases c,
{
    match c {
        PicusConstraint::Lt(a, b) => occurs(*a, v) || occurs(*b, v),
        PicusConstraint::Leq(a, b) => occurs(*a, v) || occurs(*b, v),
        PicusConstraint::Eq(e) => occurs(*e, v),
        PicusConstraint::Implies(a, b) => occurs_in(*a, v) || occurs_in(*b, v),
        PicusConstraint::Iff(a, b) => occurs_in(*a, v) || occurs_in(*b, v),
        PicusConstraint::And(a, b) => occurs_in(*a, v) || occurs_in(*b, v),
    }
}

/// Every variable of `e` is below `n`.
pub open spec fn expr_below(e: PicusExpr, n: int) -> bool {
    forall|v: usize| #[trigger] occurs(e, v) ==> v < n
}

/// Every variable of `c` is below `n`.
pub open spec fn constraint_below(c: PicusConstraint, n: int) -> bool {
    forall|v: usize| #[trigger] occurs_in(c, v) ==> v < n
}

pub open spec fn exprs_below(es: Seq<PicusExpr>, n: int) -> bool {
    forall|i: int| 0 <= i < es.len() ==> expr_below(#[trigger] es[i], n)
}

pub open spec fn constraints_below(cs: Seq<PicusConstraint>, n: int) -> bool {
    forall|i: int| 0 <= i < cs.len() ==> constraint_below(#[trigger] cs[i], n)
}

pub open spec fn call_below(c: CallView, n: int) -> bool {
    exprs_below(c.outputs, n) && exprs_below(c.inputs, n)
}

/// Every variable of the module (ports, constraints, calls, postconditions,
/// values assumed deterministic) is below `n`.
pub open spec fn module_below(m: ModuleView, n: int) -> bool {
    &&& exprs_below(m.inputs, n)
    &&& exprs_below(m.outputs, n)
    &&& constraints_below(m.constraints, n)
    &&& forall|i: int| 0 <= i < m.calls.len() ==> call_below(#[trigger] m.calls[i], n)
    &&& constraints_below(m.postconditions, n)
    &&& exprs_below(m.assume_deterministic, n)
}

/// Every variable cell of the row is below `n`.
pub open spec fn atoms_below(row: Seq<PicusAtom>, n: int) -> bool {
    forall|i: int| 0 <= i < row.len() ==> (#[trigger] row[i] matches PicusAtom::Var(v) ==> v < n)
}

pub open spec fn task_below(t: TaskView, n: int) -> bool {
    atoms_below(t.main_vars, n) && expr_below(t.multiplicity, n)
}

/// Every variable recorded in the state's module and deferred calls is below `n`.
pub open spec fn state_below(st: ExtractState, n: int) -> bool {
    &&& module_below(st.module, n)
    &&& forall|i: int| 0 <= i < st.tasks.len() ==> task_below(#[trigger] st.tasks[i], n)
    &&& forall|i: int|
        0 <= i < st.symbolic.len() ==> expr_below((#[trigger] st.symbolic[i]).0, n) && expr_below(
            st.symbolic[i].1,
            n,
        )
}

/// The counter is fresh: every variable recorded so far is below it, so each
/// variable handed out from it is new.
pub open spec fn fresh_ok(st: ExtractState) -> bool {
    state_below(st, st.fresh)
}

/// Partial evaluation only removes variables.
pub proof fn lemma_partial_eval_occurs(e: PicusExpr, env: Map<usize, u64>, v: usize)
    ensures
        occurs(partial_eval(e, env), v) ==> occurs(e, v),
    decreases e,
{
    match e {
        PicusExpr::Add(a, b) => {
            lemma_partial_eval_occurs(*a, env, v);
            lemma_partial_eval_occurs(*b, env, v);
        },
        PicusExpr::Sub(a, b) => {
            lemma_partial_eval_occurs(*a, env, v);
            lemma_partial_eval_occurs(*b, env, v);
        },
        PicusExpr::Mul(a, b) => {
            lemma_partial_eval_occurs(*a, env, v);
            lemma_partial_eval_occurs(*b, env, v);
        },
        _ => {},
    }
}

proof fn lemma_partial_eval_below(e: PicusExpr, env: Map<usize, u64>, n: int)
    requires
        expr_below(e, n),
    ensures
        expr_below(partial_eval(e, env), n),
{
    assert forall|v: usize| #[trigger] occurs(partial_eval(e, env), v) implies v < n by {
        lemma_partial_eval_occurs(e, env, v);
    }
}

proof fn lemma_specialize_below(env: Map<usize, u64>, e: PicusExpr, n: int)
    requires
        expr_below(e, n),
    ensures
        expr_below(specialize(env, e), n),
{
    lemma_partial_eval_below(e, env, n);
}

proof fn lemma_partial_eval_constraint_occurs(c: PicusConstraint, env: Map<usize, u64>, v: usize)
    ensures
        occurs_in(partial_eval_constraint(c, env), v) ==> occurs_in(c, v),
    decreases c,
{
    match c {
        PicusConstraint::Lt(a, b) => {
            lemma_partial_eval_occurs(*a, env, v);
            lemma_partial_eval_occurs(*b, env, v);
        },
        PicusConstraint::Leq(a, b) => {
            lemma_partial_eval_occurs(*a, env, v);
            lemma_partial_eval_occurs(*b, env, v);
        },
        PicusConstraint::Eq(e) => {
            lemma_partial_eval_occurs(*e, env, v);
        },
        PicusConstraint::Implies(a, b) => {
            lemma_partial_eval_constraint_occurs(*a, env, v);
            lemma_partial_eval_constraint_occurs(*b, env, v);
        },
        PicusConstraint::Iff(a, b) => {
            lemma_partial_eval_constraint_occurs(*a, env, v);
            lemma_partial_eval_constraint_occurs(*b, env, v);
        },
        PicusConstraint::And(a, b) => {
            lemma_partial_eval_constraint_occurs(*a, env, v);
            lemma_partial_eval_constraint_occurs(*b, env, v);
        },
    }
}

/// Instantiating columns by the row's cells brings in only the row's variables.
proof fn lemma_inst_below(e: PicusExpr, row: Seq<PicusAtom>, n: int)
    requires
        expr_below(e, row.len() as int),
        atoms_below(row, n),
    ensures
        expr_below(inst_expr(e, row), n),
    decreases e,
{
    match e {
        PicusExpr::Var(i) => {
            assert(occurs(e, i));
            let a = row[i as int];
            assert(inst_expr(e, row) == crate::pcl::atom_expr(a));
            assert forall|v: usize| #[trigger] occurs(inst_expr(e, row), v) implies v < n by {
                match a {
                    PicusAtom::Var(w) => {
                        assert(occurs(PicusExpr::Var(w), v));
                        assert(w == v);
                    },
                    PicusAtom::Const(c) => {
                        assert(!occurs(PicusExpr::Const(c), v));
                    },
                }
            }
        },
        PicusExpr::Add(a, b) => {
            assert forall|v: usize| #[trigger] occurs(*a, v) implies v < row.len() by { assert(occurs(e, v)); }
            assert forall|v: usize| #[trigger] occurs(*b, v) implies v < row.len() by { assert(occurs(e, v)); }
            lemma_inst_below(*a, row, n);
            lemma_inst_below(*b, row, n);
            assert forall|v: usize| #[trigger] occurs(inst_expr(e, row), v) implies v < n by {
                assert(occurs(inst_expr(*a, row), v) || occurs(inst_expr(*b, row), v));
            }
        },
        PicusExpr::Sub(a, b) => {
            assert forall|v: usize| #[trigger] occurs(*a, v) implies v < row.len() by { assert(occurs(e, v)); }
            assert forall|v: usize| #[trigger] occurs(*b, v) implies v < row.len() by { assert(occurs(e, v)); }
            lemma_inst_below(*a, row, n);
            lemma_inst_below(*b, row, n);
            assert forall|v: usize| #[trigger] occurs(inst_expr(e, row), v) implies v < n by {
                assert(occurs(inst_expr(*a, row), v) || occurs(inst_expr(*b, row), v));
            }
        },
        PicusExpr::Mul(a, b) => {
            assert forall|v: usize| #[trigger] occurs(*a, v) implies v < row.len() by { assert(occurs(e, v)); }
            assert forall|v: usize| #[trigger] occurs(*b, v) implies v < row.len() by { assert(occurs(e, v)); }
            lemma_inst_below(*a, row, n);
            lemma_inst_below(*b, row, n);
            assert forall|v: usize| #[trigger] occurs(inst_expr(e, row), v) implies v < n by {
                assert(occurs(inst_expr(*a, row), v) || occurs(inst_expr(*b, row), v));
            }
        },
        PicusExpr::Const(c) => {
            assert forall|v: usize| #[trigger] occurs(inst_expr(e, row), v) implies v < n by {
                assert(inst_expr(e, row) == PicusExpr::Const(c));
            }
        },
    }
}

/// Expressions and constraints built from parts below `n` are below `n`.
proof fn lemma_build_below(n: int)
    ensures
        forall|a: PicusExpr, b: PicusExpr|
            expr_below(a, n) && expr_below(b, n) ==> #[trigger] expr_below(e_add(a, b), n),
        forall|a: PicusExpr, b: PicusExpr|
            expr_below(a, n) && expr_below(b, n) ==> #[trigger] expr_below(e_sub(a, b), n),
        forall|a: PicusExpr, b: PicusExpr|
            expr_below(a, n) && expr_below(b, n) ==> #[trigger] expr_below(e_mul(a, b), n),
        forall|a: PicusExpr, b: PicusExpr|
            expr_below(a, n) && expr_below(b, n) ==> #[trigger] constraint_below(c_lt(a, b), n),
        forall|a: PicusExpr, b: PicusExpr|
            expr_below(a, n) && expr_below(b, n) ==> #[trigger] constraint_below(c_leq(a, b), n),
        forall|a: PicusExpr, b: PicusExpr|
            expr_below(a, n) && expr_below(b, n) ==> #[trigger] constraint_below(c_equal(a, b), n),
        forall|a: PicusExpr| expr_below(a, n) ==> #[trigger] constraint_below(c_zero(a), n),
        forall|a: PicusExpr| expr_below(a, n) ==> #[trigger] constraint_below(c_bit(a), n),
        forall|a: PicusConstraint, b: PicusConstraint|
            constraint_below(a, n) && constraint_below(b, n) ==> #[trigger] constraint_below(c_implies(a, b), n),
        forall|a: PicusConstraint, b: PicusConstraint|
            constraint_below(a, n) && constraint_below(b, n) ==> #[trigger] constraint_below(c_iff(a, b), n),
        forall|a: PicusConstraint, b: PicusConstraint|
            constraint_below(a, n) && constraint_below(b, n) ==> #[trigger] constraint_below(c_and(a, b), n),
        forall|c: u64| #[trigger] expr_below(PicusExpr::Const(c), n),
        forall|v: usize| v < n ==> #[trigger] expr_below(PicusExpr::Var(v), n),
{
    assert forall|a: PicusExpr, b: PicusExpr| expr_below(a, n) && expr_below(b, n) implies #[trigger] expr_below(e_add(a, b), n) by {
        assert forall|v: usize| #[trigger] occurs(e_add(a, b), v) implies v < n by {
            assert(occurs(a, v) || occurs(b, v));
        }
    }
    assert forall|a: PicusExpr, b: PicusExpr| expr_below(a, n) && expr_below(b, n) implies #[trigger] expr_below(e_sub(a, b), n) by {
        assert forall|v: usize| #[trigger] occurs(e_sub(a, b), v) implies v < n by {
            assert(occurs(a, v) || occurs(b, v));
        }
    }
    assert forall|a: PicusExpr, b: PicusExpr| expr_below(a, n) && expr_below(b, n) implies #[trigger] expr_below(e_mul(a, b), n) by {
        assert forall|v: usize| #[trigger] occurs(e_mul(a, b), v) implies v < n by {
            assert(occurs(a, v) || occurs(b, v));
        }
    }
    assert forall|a: PicusExpr, b: PicusExpr| expr_below(a, n) && expr_below(b, n) implies #[trigger] constraint_below(c_lt(a, b), n) by {
        assert forall|v: usize| #[trigger] occurs_in(c_lt(a, b), v) implies v < n by {
            assert(occurs(a, v) || occurs(b, v));
        }
    }
    assert forall|a: PicusExpr, b: PicusExpr| expr_below(a, n) && expr_below(b, n) implies #[trigger] constraint_below(c_leq(a, b), n) by {
        assert forall|v: usize| #[trigger] occurs_in(c_leq(a, b), v) implies v < n by {
            assert(occurs(a, v) || occurs(b, v));
        }
    }
    assert forall|a: PicusExpr, b: PicusExpr| expr_below(a, n) && expr_below(b, n) implies #[trigger] constraint_below(c_equal(a, b), n) by {
        assert forall|v: usize| #[trigger] occurs_in(c_equal(a, b), v) implies v < n by {
            assert(occurs(e_sub(a, b), v));
            assert(occurs(a, v) || occurs(b, v));
        }
    }
    assert forall|a: PicusExpr| expr_below(a, n) implies #[trigger] constraint_below(c_zero(a), n) by {
        assert forall|v: usize| #[trigger] occurs_in(c_zero(a), v) implies v < n by {
            assert(occurs(a, v));
        }
    }
    assert forall|a: PicusExpr| expr_below(a, n) implies #[trigger] constraint_below(c_bit(a), n) by {
        assert forall|v: usize| #[trigger] occurs_in(c_bit(a), v) implies v < n by {
            assert(occurs(e_mul(a, e_sub(a, PicusExpr::Const(1))), v));
            assert(occurs(a, v) || occurs(e_sub(a, PicusExpr::Const(1)), v));
            assert(occurs(a, v) || occurs(PicusExpr::Const(1), v));
        }
    }
    assert forall|a: PicusConstraint, b: PicusConstraint| constraint_below(a, n) && constraint_below(b, n) implies #[trigger] constraint_below(c_implies(a, b), n) by {
        assert forall|v: usize| #[trigger] occurs_in(c_implies(a, b), v) implies v < n by {
            assert(occurs_in(a, v) || occurs_in(b, v));
        }
    }
    assert forall|a: PicusConstraint, b: PicusConstraint| constraint_below(a, n) && constraint_below(b, n) implies #[trigger] constraint_below(c_iff(a, b), n) by {
        assert forall|v: usize| #[trigger] occurs_in(c_iff(a, b), v) implies v < n by {
            assert(occurs_in(a, v) || occurs_in(b, v));
        }
    }
    assert forall|a: PicusConstraint, b: PicusConstraint| constraint_below(a, n) && constraint_below(b, n) implies #[trigger] constraint_below(c_and(a, b), n) by {
        assert forall|v: usize| #[trigger] occurs_in(c_and(a, b), v) implies v < n by {
            assert(occurs_in(a, v) || occurs_in(b, v));
        }
    }
    assert forall|c: u64| #[trigger] expr_below(PicusExpr::Const(c), n) by {
        assert forall|v: usize| #[trigger] occurs(PicusExpr::Const(c), v) implies v < n by {}
    }
    assert forall|v: usize| v < n implies #[trigger] expr_below(PicusExpr::Var(v), n) by {
        assert forall|w: usize| #[trigger] occurs(PicusExpr::Var(v), w) implies w < n by {}
    }
}

/// Adding parts below `n` keeps a state below `n`; so does raising the bound.
proof fn lemma_add_below(st: ExtractState, n: int)
    requires
        state_below(st, n),
    ensures
        forall|cs: Seq<PicusConstraint>| constraints_below(cs, n) ==> #[trigger] state_below(st.add_constraints(cs), n),
        forall|es: Seq<PicusExpr>| exprs_below(es, n) ==> #[trigger] state_below(st.add_inputs(es), n),
        forall|es: Seq<PicusExpr>| exprs_below(es, n) ==> #[trigger] state_below(st.add_outputs(es), n),
        forall|c: CallView| call_below(c, n) ==> #[trigger] state_below(st.add_call(c), n),
        forall|e: PicusExpr| expr_below(e, n) ==> #[trigger] state_below(st.add_assumed(e), n),
        forall|name: Seq<char>, i: int, o: int| #[trigger] state_below(st.ensure_aux(name, i, o), n),
        forall|f: int| #[trigger] state_below(st.with_fresh(f), n),
        forall|k: int| n <= k ==> #[trigger] state_below(st, k),
{
    assert forall|cs: Seq<PicusConstraint>| constraints_below(cs, n) implies #[trigger] state_below(st.add_constraints(cs), n) by {
        let all = st.module.constraints + cs;
        assert forall|i: int| 0 <= i < all.len() implies constraint_below(#[trigger] all[i], n) by {
            if i < st.module.constraints.len() {
                assert(all[i] == st.module.constraints[i]);
            } else {
                assert(all[i] == cs[i - st.module.constraints.len()]);
            }
        }
    }
    assert forall|es: Seq<PicusExpr>| exprs_below(es, n) implies #[trigger] state_below(st.add_inputs(es), n) by {
        let all = st.module.inputs + es;
        assert forall|i: int| 0 <= i < all.len() implies expr_below(#[trigger] all[i], n) by {
            if i < st.module.inputs.len() {
                assert(all[i] == st.module.inputs[i]);
            } else {
                assert(all[i] == es[i - st.module.inputs.len()]);
            }
        }
    }
    assert forall|es: Seq<PicusExpr>| exprs_below(es, n) implies #[trigger] state_below(st.add_outputs(es), n) by {
        let all = st.module.outputs + es;
        assert forall|i: int| 0 <= i < all.len() implies expr_below(#[trigger] all[i], n) by {
            if i < st.module.outputs.len() {
                assert(all[i] == st.module.outputs[i]);
            } else {
                assert(all[i] == es[i - st.module.outputs.len()]);
            }
        }
    }
    assert forall|c: CallView| call_below(c, n) implies #[trigger] state_below(st.add_call(c), n) by {
        let all = st.module.calls.push(c);
        assert forall|i: int| 0 <= i < all.len() implies call_below(#[trigger] all[i], n) by {
            if i < st.module.calls.len() {
                assert(all[i] == st.module.calls[i]);
            }
        }
    }
    assert forall|e: PicusExpr| expr_below(e, n) implies #[trigger] state_below(st.add_assumed(e), n) by {
        let all = st.module.assume_deterministic.push(e);
        assert forall|i: int| 0 <= i < all.len() implies expr_below(#[trigger] all[i], n) by {
            if i < st.module.assume_deterministic.len() {
                assert(all[i] == st.module.assume_deterministic[i]);
            }
        }
    }
    assert forall|k: int| n <= k implies #[trigger] state_below(st, k) by {
        assert forall|i: int| 0 <= i < st.tasks.len() implies task_below(#[trigger] st.tasks[i], k) by {
            assert(task_below(st.tasks[i], n));
        }
        assert forall|i: int| 0 <= i < st.module.calls.len() implies call_below(#[trigger] st.module.calls[i], k) by {
            assert(call_below(st.module.calls[i], n));
        }
    }
}

/// A bound on variables also holds for every larger bound.
proof fn lemma_mono(n: int, k: int)
    requires
        n <= k,
    ensures
        forall|e: PicusExpr| expr_below(e, n) ==> #[trigger] expr_below(e, k),
        forall|es: Seq<PicusExpr>| exprs_below(es, n) ==> #[trigger] exprs_below(es, k),
        forall|row: Seq<PicusAtom>| atoms_below(row, n) ==> #[trigger] atoms_below(row, k),
{
    assert forall|es: Seq<PicusExpr>| exprs_below(es, n) implies #[trigger] exprs_below(es, k) by {
        assert forall|i: int| 0 <= i < es.len() implies expr_below(#[trigger] es[i], k) by {
            assert(expr_below(es[i], n));
        }
    }
}

/// The range checks of values below `n` are below `n`.
proof fn lemma_range_checks_below(vals: Seq<PicusExpr>, m: PicusExpr, bound: u64, n: int)
    requires
        exprs_below(vals, n),
        expr_below(m, n),
    ensures
        constraints_below(range_checks(vals, m, bound), n),
    decreases vals.len(),
{
    lemma_build_below(n);
    if vals.len() > 0 {
        let init = vals.drop_last();
        assert forall|i: int| 0 <= i < init.len() implies expr_below(#[trigger] init[i], n) by {
            assert(init[i] == vals[i]);
        }
        lemma_range_checks_below(init, m, bound, n);
        let prev = range_checks(init, m, bound);
        let last = vals[vals.len() - 1];
        assert(expr_below(last, n));
        if !(vals.last() is Const) {
            let all = prev.push(c_leq(e_mul(vals.last(), m), PicusExpr::Const(bound)));
            assert forall|i: int| 0 <= i < all.len() implies constraint_below(#[trigger] all[i], n) by {
                if i < prev.len() {
                    assert(all[i] == prev[i]);
                }
            }
        }
    }
}

/// Decomposing a byte takes one new variable and mentions only it and the
/// given expressions.
proof fn lemma_msb_fresh(st: ExtractState, m: PicusExpr, msb: PicusExpr, byte: PicusExpr)
    requires
        fresh_ok(st),
        0 <= st.fresh,
        byte != PicusExpr::Const(0) ==> st.fresh < usize::MAX,
        expr_below(m, st.fresh),
        expr_below(msb, st.fresh),
        expr_below(byte, st.fresh),
    ensures
        fresh_ok(msb_byte_step(st, m, msb, byte)),
        st.fresh <= msb_byte_step(st, m, msb, byte).fresh,
{
    if byte != PicusExpr::Const(0) {
        let n = st.fresh + 1;
        lemma_add_below(st, st.fresh);
        lemma_add_below(st, n);
        lemma_mono(st.fresh, n);
        lemma_build_below(n);
        let low = PicusExpr::Var(st.fresh as usize);
        let cs = seq![
            c_leq(e_mul(low, m), PicusExpr::Const(127)),
            c_zero(e_mul(e_mul(m, msb), e_sub(msb, PicusExpr::Const(1)))),
            c_zero(e_mul(m, e_sub(byte, e_add(e_mul(msb, PicusExpr::Const(128)), low)))),
        ];
        assert(constraints_below(cs, n));
        lemma_add_below(st.add_constraints(cs), n);
    }
}

proof fn lemma_shr_carry_below(m: PicusExpr, values: Seq<PicusExpr>, n: int)
    requires
        values.len() >= 5,
        exprs_below(values, n),
        expr_below(m, n),
    ensures
        constraints_below(shr_carry_constraints(m, values), n),
{
    lemma_build_below(n);
    assert(expr_below(values[1], n));
    assert(expr_below(values[2], n));
    assert(expr_below(values[3], n));
    assert(expr_below(values[4], n));
    let cs = shr_carry_constraints(m, values);
    assert forall|i: int| 0 <= i < cs.len() implies constraint_below(#[trigger] cs[i], n) by {
        if i >= 4 {
            let k = i - 4;
            assert(constraint_below(shr_carry_case(k, m, values[1], values[2], values[3]), n));
        }
    }
}

/// A byte lookup on values below the counter keeps the counter fresh: the
/// variables it takes (for a decomposed byte, for the high bit of `b & 127`)
/// are new, and its constraints and calls mention only them and the values.
pub proof fn lemma_byte_step_fresh(shr: ShrCarrySummaryMode, st: ExtractState, m: PicusExpr, values: Seq<PicusExpr>, sel: bool)
    requires
        fresh_ok(st),
        0 <= st.fresh,
        st.fresh + byte_fresh_count(values) <= usize::MAX,
        exprs_below(values, st.fresh),
        expr_below(m, st.fresh),
        byte_lookup_ok(sel, values),
    ensures
        fresh_ok(byte_step(shr, st, m, values)),
        st.fresh <= byte_step(shr, st, m, values).fresh,
{
    let n = st.fresh;
    lemma_build_below(n);
    lemma_add_below(st, n);
    if let PicusExpr::Const(v) = values[0] {
        let rest = values.subrange(1, values.len() as int);
        assert forall|i: int| 0 <= i < rest.len() implies expr_below(#[trigger] rest[i], n) by {
            assert(rest[i] == values[i + 1]);
        }
        lemma_range_checks_below(rest, m, 255, n);
        lemma_range_checks_below(rest, m, 65535, n);
        if values.len() >= 4 {
            assert(expr_below(values[1], n));
            assert(expr_below(values[2], n));
            assert(expr_below(values[3], n));
        }
        if values.len() >= 5 {
            assert(expr_below(values[4], n));
        }
        if v == byte_opcode_code(ByteOpcode::MSB) {
            lemma_msb_fresh(st, m, values[1], values[3]);
            let s1 = msb_byte_step(st, m, values[1], values[3]);
            lemma_mono(n, s1.fresh);
            lemma_msb_fresh(s1, m, values[1], values[4]);
        } else if v == byte_opcode_code(ByteOpcode::ShrCarry) {
            lemma_shr_carry_below(m, values, n);
            let e1 = st.ensure_aux("ShrCarry"@, 2, 2);
            lemma_add_below(e1, n);
            let c = CallView { mod_name: "ShrCarry"@, outputs: seq![values[1], values[2]], inputs: seq![values[3], values[4]] };
            assert(call_below(c, n));
        } else if v == byte_opcode_code(ByteOpcode::LTU) {
            let lt = c_lt(values[2], values[3]);
            let cs = seq![c_iff(c_equal(values[1], PicusExpr::Const(1)), lt), c_bit(values[1])];
            assert(constraints_below(cs, n));
            assert(constraints_below(seq![lt], n));
        } else if crate::picus_bytes::is_bitwise_code(v) {
            let e2 = st.ensure_aux("byte_interaction_mod"@, 2, 1);
            lemma_add_below(e2, n);
            let c = CallView { mod_name: "byte_interaction_mod"@, outputs: seq![values[1]], inputs: seq![values[3], values[4]] };
            assert(call_below(c, n));
            let n1 = n + 1;
            lemma_add_below(st, n1);
            lemma_mono(n, n1);
            lemma_build_below(n1);
            let cs = and_127_constraints(values, PicusExpr::Var(st.fresh as usize));
            assert(constraints_below(cs, n1));
            lemma_add_below(st.add_constraints(cs), n1);
        }
    }
}

/// Binding a value below the counter to a new port variable keeps the counter fresh.
proof fn lemma_bind_port_fresh(st: ExtractState, m: PicusExpr, value: PicusExpr, as_input: bool, byte_range: bool)
    requires
        fresh_ok(st),
        0 <= st.fresh < usize::MAX,
        expr_below(m, st.fresh),
        expr_below(value, st.fresh),
    ensures
        fresh_ok(bind_port(st, m, value, as_input, byte_range)),
        bind_port(st, m, value, as_input, byte_range).fresh == st.fresh + 1,
{
    let n = st.fresh + 1;
    lemma_mono(st.fresh, n);
    lemma_build_below(n);
    lemma_add_below(st, st.fresh);
    lemma_add_below(st, n);
    let v = PicusExpr::Var(st.fresh as usize);
    assert(exprs_below(seq![v], n));
    let st1 = if as_input { st.add_inputs(seq![v]) } else { st.add_outputs(seq![v]) };
    lemma_add_below(st1, n);
    let st2 = st1.add_constraints(seq![eq_mul(m, value, v)]);
    assert(constraints_below(seq![eq_mul(m, value, v)], n));
    lemma_add_below(st2, n);
    assert(constraints_below(seq![c_leq(v, PicusExpr::Const(255))], n));
    let st3 = if byte_range { st2.add_constraints(seq![c_leq(v, PicusExpr::Const(255))]) } else { st2 };
    lemma_add_below(st3, n);
}

proof fn lemma_bind_ports_fresh(
    st: ExtractState,
    m: PicusExpr,
    values: Seq<PicusExpr>,
    lo: int,
    hi: int,
    as_input: bool,
    byte_range: bool,
)
    requires
        fresh_ok(st),
        0 <= st.fresh,
        0 <= lo,
        hi <= values.len(),
        st.fresh + (hi - lo) <= usize::MAX,
        exprs_below(values, st.fresh),
        expr_below(m, st.fresh),
    ensures
        fresh_ok(bind_ports(st, m, values, lo, hi, as_input, byte_range)),
        bind_ports(st, m, values, lo, hi, as_input, byte_range).fresh == st.fresh + (if hi <= lo { 0 } else { hi - lo }),
    decreases hi - lo,
{
    if hi > lo {
        lemma_bind_ports_fresh(st, m, values, lo, hi - 1, as_input, byte_range);
        let prev = bind_ports(st, m, values, lo, hi - 1, as_input, byte_range);
        lemma_mono(st.fresh, prev.fresh);
        assert(expr_below(values[hi - 1], st.fresh));
        lemma_bind_port_fresh(prev, m, values[hi - 1], as_input, byte_range);
    }
}

proof fn lemma_bind_memory_values_fresh(st: ExtractState, m: PicusExpr, values: Seq<PicusExpr>, lo: int, hi: int, is_send: bool)
    requires
        fresh_ok(st),
        0 <= st.fresh,
        0 <= lo,
        hi <= values.len(),
        st.fresh + (hi - lo) <= usize::MAX,
        exprs_below(values, st.fresh),
        expr_below(m, st.fresh),
    ensures
        fresh_ok(bind_memory_values(st, m, values, lo, hi, is_send)),
        bind_memory_values(st, m, values, lo, hi, is_send).fresh == st.fresh + (if hi <= lo { 0 } else { hi - lo }),
    decreases hi - lo,
{
    if hi > lo {
        lemma_bind_memory_values_fresh(st, m, values, lo, hi - 1, is_send);
        let prev = bind_memory_values(st, m, values, lo, hi - 1, is_send);
        let n = prev.fresh + 1;
        lemma_mono(st.fresh, n);
        lemma_build_below(n);
        lemma_add_below(prev, prev.fresh);
        lemma_add_below(prev, n);
        assert(expr_below(values[hi - 1], st.fresh));
        let v = PicusExpr::Var(prev.fresh as usize);
        assert(exprs_below(seq![v], n));
        let a = prev.add_inputs(seq![v]);
        lemma_add_below(a, n);
        assert(constraints_below(seq![c_lt(v, PicusExpr::Const(255))], n));
        let st1 = if is_send { a.add_constraints(seq![c_lt(v, PicusExpr::Const(255))]) } else { prev.add_outputs(seq![v]) };
        lemma_add_below(st1, n);
        assert(constraints_below(seq![eq_mul(m, values[hi - 1], v)], n));
        lemma_add_below(st1.add_constraints(seq![eq_mul(m, values[hi - 1], v)]), n);
    }
}

/// A memory access on values below the counter keeps the counter fresh.
pub proof fn lemma_memory_step_fresh(st: ExtractState, m: PicusExpr, values: Seq<PicusExpr>, is_send: bool)
    requires
        fresh_ok(st),
        0 <= st.fresh,
        m != PicusExpr::Const(0) ==> memory_access_ok(st.fresh, values),
        exprs_below(values, st.fresh),
        expr_below(m, st.fresh),
    ensures
        fresh_ok(memory_step(st, m, values, is_send)),
        st.fresh <= memory_step(st, m, values, is_send).fresh,
{
    if m != PicusExpr::Const(0) {
        let n = st.fresh + 1;
        lemma_mono(st.fresh, n);
        lemma_build_below(n);
        lemma_add_below(st, st.fresh);
        lemma_add_below(st, n);
        let addr = PicusExpr::Var(st.fresh as usize);
        assert(exprs_below(seq![addr], n));
        let st1 = if is_send { st.add_inputs(seq![addr]) } else { st.add_outputs(seq![addr]) };
        lemma_add_below(st1, n);
        assert(expr_below(values[2], st.fresh));
        assert(constraints_below(seq![eq_mul(m, values[2], addr)], n));
        let st1b = st1.add_constraints(seq![eq_mul(m, values[2], addr)]);
        lemma_add_below(st1b, n);
        let st2 = st1b.with_fresh(n);
        lemma_bind_memory_values_fresh(st2, m, values, 3, values.len() as int, is_send);
    }
}

/// A received instruction on values below the counter keeps the counter fresh.
pub proof fn lemma_receive_instruction_fresh(st: ExtractState, m: PicusExpr, values: Seq<PicusExpr>)
    requires
        fresh_ok(st),
        0 <= st.fresh,
        receive_instruction_ok(m, values),
        m != PicusExpr::Const(0) ==> st.fresh + 18 <= usize::MAX,
        exprs_below(values, st.fresh),
        expr_below(m, st.fresh),
    ensures
        fresh_ok(receive_instruction_step(st, m, values)),
        st.fresh <= receive_instruction_step(st, m, values).fresh,
{
    if m != PicusExpr::Const(0) {
        let n = st.fresh + 2;
        lemma_mono(st.fresh, n);
        lemma_build_below(n);
        lemma_add_below(st, st.fresh);
        lemma_add_below(st, n);
        let pc = values[2];
        assert(expr_below(pc, st.fresh));
        assert(expr_below(values[3], st.fresh));
        assert(expr_below(values[4], st.fresh));
        assert(expr_below(values[6], st.fresh));
        assert(exprs_below(seq![pc], n));
        let st1 = if pc is Var { st.add_inputs(seq![pc]) } else { st };
        lemma_add_below(st1, n);
        let next_pc = PicusExpr::Var(st.fresh as usize);
        assert(exprs_below(seq![next_pc], n));
        let s_a = st1.add_outputs(seq![next_pc]);
        lemma_add_below(s_a, n);
        let cs = seq![eq_mul(m, values[3], next_pc), c_equal(values[3], e_add(pc, PicusExpr::Const(4)))];
        assert(constraints_below(cs, n));
        let s_b = s_a.add_constraints(cs);
        lemma_add_below(s_b, n);
        let st2 = s_b.add_assumed(values[6]);
        lemma_add_below(st2, n);
        let next_next_pc = PicusExpr::Var((st.fresh + 1) as usize);
        assert(constraints_below(seq![eq_mul(m, values[4], next_next_pc)], n));
        let s_c = st2.add_constraints(seq![eq_mul(m, values[4], next_next_pc)]);
        lemma_add_below(s_c, n);
        assert(exprs_below(seq![next_next_pc], n));
        let s_d = s_c.add_outputs(seq![next_next_pc]);
        lemma_add_below(s_d, n);
        let st3 = s_d.with_fresh(n);
        let op_a_immutable = values[23] == PicusExpr::Const(1);
        let is_rw_a = values[24] == PicusExpr::Const(1);
        lemma_bind_ports_fresh(st3, m, values, 7, 11, op_a_immutable, true);
        let st4 = bind_ports(st3, m, values, 7, 11, op_a_immutable, true);
        lemma_mono(st.fresh, st4.fresh);
        lemma_bind_ports_fresh(st4, m, values, 11, 15, true, false);
        let st5 = bind_ports(st4, m, values, 11, 15, true, false);
        lemma_mono(st.fresh, st5.fresh);
        lemma_bind_ports_fresh(st5, m, values, 15, 19, true, false);
        let st6 = bind_ports(st5, m, values, 15, 19, true, false);
        lemma_mono(st.fresh, st6.fresh);
        lemma_bind_ports_fresh(st6, m, values, 19, 23, is_rw_a, false);
    }
}

/// Placing a value below the counter in a row keeps the counter fresh and the
/// row below it.
proof fn lemma_place_value_fresh(row: Seq<PicusAtom>, st: ExtractState, pos: int, v: PicusExpr)
    requires
        fresh_ok(st),
        0 <= st.fresh < usize::MAX,
        0 <= pos < row.len(),
        atoms_below(row, st.fresh),
        expr_below(v, st.fresh),
    ensures
        place_value(row, st, pos, v).0.len() == row.len(),
        fresh_ok(place_value(row, st, pos, v).1),
        atoms_below(place_value(row, st, pos, v).0, place_value(row, st, pos, v).1.fresh),
        place_value(row, st, pos, v).1.fresh <= st.fresh + 1,
        st.fresh <= place_value(row, st, pos, v).1.fresh,
{
    let r = place_value(row, st, pos, v);
    match v {
        PicusExpr::Var(x) => {
            assert(occurs(v, x));
            assert forall|i: int| 0 <= i < r.0.len() implies (#[trigger] r.0[i] matches PicusAtom::Var(w) ==> w < st.fresh) by {
                if i != pos {
                    assert(r.0[i] == row[i]);
                }
            }
        },
        PicusExpr::Const(c) => {
            assert forall|i: int| 0 <= i < r.0.len() implies (#[trigger] r.0[i] matches PicusAtom::Var(w) ==> w < st.fresh) by {
                if i != pos {
                    assert(r.0[i] == row[i]);
                }
            }
        },
        _ => {
            let n = st.fresh + 1;
            lemma_mono(st.fresh, n);
            lemma_build_below(n);
            lemma_add_below(st, st.fresh);
            lemma_add_below(st, n);
            let cs = seq![c_equal(PicusExpr::Var(st.fresh as usize), v)];
            assert(constraints_below(cs, n));
            lemma_add_below(st.add_constraints(cs), n);
            assert forall|i: int| 0 <= i < r.0.len() implies (#[trigger] r.0[i] matches PicusAtom::Var(w) ==> w < n) by {
                if i != pos {
                    assert(r.0[i] == row[i]);
                }
            }
        },
    }
}

proof fn lemma_place_range_fresh(row: Seq<PicusAtom>, st: ExtractState, values: Seq<PicusExpr>, start: int, end: int, col0: int)
    requires
        fresh_ok(st),
        0 <= st.fresh,
        st.fresh + (end - start) <= usize::MAX,
        0 <= start,
        end <= values.len(),
        0 <= col0,
        col0 + (end - start) <= row.len(),
        atoms_below(row, st.fresh),
        exprs_below(values, st.fresh),
    ensures
        place_range(row, st, values, start, end, col0).0.len() == row.len(),
        fresh_ok(place_range(row, st, values, start, end, col0).1),
        atoms_below(place_range(row, st, values, start, end, col0).0, place_range(row, st, values, start, end, col0).1.fresh),
        st.fresh <= place_range(row, st, values, start, end, col0).1.fresh <= st.fresh + (if end <= start { 0 } else { end - start }),
    decreases end - start,
{
    if end > start {
        lemma_place_range_fresh(row, st, values, start, end - 1, col0);
        let p = place_range(row, st, values, start, end - 1, col0);
        lemma_mono(st.fresh, p.1.fresh);
        assert(expr_below(values[end - 1], st.fresh));
        lemma_place_value_fresh(p.0, p.1, col0 + (end - 1 - start), values[end - 1]);
    }
}

proof fn lemma_place_args_fresh(
    row: Seq<PicusAtom>,
    st: ExtractState,
    values: Seq<PicusExpr>,
    args: Seq<(IndexSlice, String)>,
    entries: Seq<(String, (usize, usize))>,
    width: int,
)
    requires
        fresh_ok(st),
        0 <= st.fresh,
        st.fresh + arg_slots(args) <= usize::MAX,
        forall|k: int| 0 <= k < args.len() ==> #[trigger] arg_ok(values, args[k], entries, width),
        row.len() == width,
        atoms_below(row, st.fresh),
        exprs_below(values, st.fresh),
    ensures
        place_args(row, st, values, args, entries).0.len() == row.len(),
        fresh_ok(place_args(row, st, values, args, entries).1),
        atoms_below(place_args(row, st, values, args, entries).0, place_args(row, st, values, args, entries).1.fresh),
        st.fresh <= place_args(row, st, values, args, entries).1.fresh <= st.fresh + arg_slots(args),
    decreases args.len(),
{
    if args.len() > 0 {
        let init = args.drop_last();
        assert forall|k: int| 0 <= k < init.len() implies #[trigger] arg_ok(values, init[k], entries, width) by {
            assert(init[k] == args[k]);
            assert(arg_ok(values, args[k], entries, width));
        }
        lemma_arg_slots_nonneg(init);
        lemma_place_args_fresh(row, st, values, init, entries, width);
        let p = place_args(row, st, values, init, entries);
        lemma_mono(st.fresh, p.1.fresh);
        assert(arg_ok(values, args[args.len() - 1], entries, width));
        let range = colrange_in(entries, args.last().1@).unwrap();
        match args.last().0 {
            IndexSlice::Range { start, end } => {
                lemma_place_range_fresh(p.0, p.1, values, start as int, end as int, range.0 as int);
            },
            IndexSlice::Single(col) => {
                assert(expr_below(values[col as int], st.fresh));
                lemma_place_value_fresh(p.0, p.1, range.0 as int, values[col as int]);
            },
        }
    }
}

/// A routed instruction lookup on values below the counter keeps the counter
/// fresh; its deferred call binds only variables below the new counter.
pub proof fn lemma_instruction_send_fresh(
    chips: Seq<ChipDesc>,
    specs: Seq<OpcodeSpec>,
    st: ExtractState,
    m: PicusExpr,
    values: Seq<PicusExpr>,
)
    requires
        fresh_ok(st),
        0 <= st.fresh,
        call_ok(chips, specs, st.fresh, values),
        exprs_below(values, st.fresh),
        expr_below(m, st.fresh),
    ensures
        fresh_ok(instruction_send_step(chips, specs, st, m, values)),
        st.fresh <= instruction_send_step(chips, specs, st, m, values).fresh,
{
    let spec = specs[opcode_of(values) as int];
    let target = chips[first_chip_with_name(chips, spec.chip@)];
    let w = target.width as int;
    let f1 = st.fresh + w;
    let row0 = atom_vars(st.fresh, w);
    lemma_arg_slots_nonneg(spec.arg_to_colname@);
    assert forall|i: int| 0 <= i < row0.len() implies (#[trigger] row0[i] matches PicusAtom::Var(x) ==> x < f1) by {
        assert(row0[i] == PicusAtom::Var((st.fresh + i) as usize));
    }
    lemma_add_below(st, st.fresh);
    lemma_mono(st.fresh, f1);
    let st0 = st.with_fresh(f1);
    lemma_place_args_fresh(row0, st0, values, spec.arg_to_colname@, target.picus_info.name_to_colrange@, w);
    let p = call_row(chips, specs, st, values);
    lemma_mono(st.fresh, p.1.fresh);
    let t = TaskView { chip_name: target.name@, main_vars: p.0, multiplicity: m, selector: spec.selector@ };
    assert(task_below(t, p.1.fresh));
    let r = instruction_send_step(chips, specs, st, m, values);
    assert forall|i: int| 0 <= i < r.tasks.len() implies task_below(#[trigger] r.tasks[i], r.fresh) by {
        if i < p.1.tasks.len() {
            assert(r.tasks[i] == p.1.tasks[i]);
        }
    }
}

/// Every column that an evaluation step refers to is one of the first
/// `width` columns.
pub open spec fn op_columns_below(op: AirOp, width: int) -> bool {
    match op {
        AirOp::AssertZero(e) => expr_below(e, width),
        AirOp::Send(l) => exprs_below(l.values@, width) && expr_below(l.multiplicity, width),
        AirOp::Receive(l) => exprs_below(l.values@, width) && expr_below(l.multiplicity, width),
    }
}

/// Every step of the chip's evaluation refers only to the chip's own columns.
pub open spec fn chip_columns_ok(chip: ChipDesc) -> bool {
    forall|i: int| 0 <= i < chip.air@.len() ==> op_columns_below(#[trigger] chip.air@[i], chip.width as int)
}

/// Every chip's evaluation refers only to its own columns.
pub open spec fn chips_columns_ok(chips: Seq<ChipDesc>) -> bool {
    forall|j: int| 0 <= j < chips.len() ==> chip_columns_ok(#[trigger] chips[j])
}

/// A message over the row's columns, instantiated on a row below `n` and
/// specialized, is below `n`.
proof fn lemma_message_below(cfg: BuilderConfig, values: Seq<PicusExpr>, m: PicusExpr, n: int)
    requires
        atoms_below(cfg.main, n),
        exprs_below(values, cfg.main.len() as int),
        expr_below(m, cfg.main.len() as int),
    ensures
        exprs_below(specialize_all(cfg.env, inst_all(values, cfg.main)), n),
        expr_below(specialize(cfg.env, inst_expr(m, cfg.main)), n),
{
    let sv = specialize_all(cfg.env, inst_all(values, cfg.main));
    assert forall|i: int| 0 <= i < sv.len() implies expr_below(#[trigger] sv[i], n) by {
        assert(expr_below(values[i], cfg.main.len() as int));
        lemma_inst_below(values[i], cfg.main, n);
        lemma_specialize_below(cfg.env, inst_expr(values[i], cfg.main), n);
    }
    lemma_inst_below(m, cfg.main, n);
    lemma_specialize_below(cfg.env, inst_expr(m, cfg.main), n);
}

/// Every step of a chip's evaluation keeps the counter fresh: when every
/// variable recorded so far and every cell of the main row is below the
/// counter, and the step refers only to the row's columns, every variable
/// recorded after the step is below the counter, which never goes back.
pub proof fn lemma_air_step_fresh(cfg: BuilderConfig, st: ExtractState, op: AirOp)
    requires
        fresh_ok(st),
        0 <= st.fresh,
        atoms_below(cfg.main, st.fresh),
        op_columns_below(op, cfg.main.len() as int),
        air_op_allowed(cfg, st, op),
    ensures
        fresh_ok(air_op_step(cfg, st, op)),
        st.fresh <= air_op_step(cfg, st, op).fresh,
{
    let n = st.fresh;
    lemma_add_below(st, n);
    lemma_build_below(n);
    match op {
        AirOp::AssertZero(e) => {
            lemma_inst_below(e, cfg.main, n);
            assert(constraints_below(seq![c_zero(inst_expr(e, cfg.main))], n));
        },
        AirOp::Send(l) => {
            lemma_message_below(cfg, l.values@, l.multiplicity, n);
            let sv = specialize_all(cfg.env, inst_all(l.values@, cfg.main));
            let sm = specialize(cfg.env, inst_expr(l.multiplicity, cfg.main));
            match l.kind {
                LookupKind::Byte => {
                    lemma_byte_step_fresh(cfg.shr_mode, st, sm, sv, cfg.mode == SubmoduleMode::Ignore);
                },
                LookupKind::Memory => {
                    lemma_memory_step_fresh(st, sm, sv, true);
                },
                LookupKind::Instruction => {
                    if cfg.mode != SubmoduleMode::Ignore {
                        lemma_instruction_send_fresh(cfg.chips, cfg.specs, st, sm, sv);
                    }
                },
                _ => {},
            }
        },
        AirOp::Receive(l) => {
            lemma_message_below(cfg, l.values@, l.multiplicity, n);
            let sv = specialize_all(cfg.env, inst_all(l.values@, cfg.main));
            let sm = specialize(cfg.env, inst_expr(l.multiplicity, cfg.main));
            match l.kind {
                LookupKind::Instruction => {
                    if cfg.mode == SubmoduleMode::Ignore {
                        assert(expr_below(sv[6], n));
                    } else {
                        lemma_receive_instruction_fresh(st, sm, sv);
                    }
                },
                LookupKind::Memory => {
                    lemma_memory_step_fresh(st, sm, sv, false);
                },
                _ => {},
            }
        },
    }
}

/// Evaluating a chip keeps the counter fresh.
pub proof fn lemma_run_air_fresh(cfg: BuilderConfig, st: ExtractState, ops: Seq<AirOp>)
    requires
        run_air(cfg, st, ops) is Some,
        fresh_ok(st),
        0 <= st.fresh,
        atoms_below(cfg.main, st.fresh),
        forall|i: int| 0 <= i < ops.len() ==> op_columns_below(#[trigger] ops[i], cfg.main.len() as int),
    ensures
        fresh_ok(run_air(cfg, st, ops).unwrap()),
        st.fresh <= run_air(cfg, st, ops).unwrap().fresh,
    decreases ops.len(),
{
    if ops.len() > 0 {
        let init = ops.drop_last();
        assert forall|i: int| 0 <= i < init.len() implies op_columns_below(#[trigger] init[i], cfg.main.len() as int) by {
            assert(init[i] == ops[i]);
        }
        lemma_run_air_fresh(cfg, st, init);
        let s = run_air(cfg, st, init).unwrap();
        lemma_mono(st.fresh, s.fresh);
        assert(op_columns_below(ops[ops.len() - 1], cfg.main.len() as int));
        lemma_air_step_fresh(cfg, s, ops.last());
    }
}

/// Inlining an analyzed call whose variables are below its counter keeps the
/// caller's counter fresh.
proof fn lemma_inline_fresh(st: ExtractState, t: TaskView, env: Map<usize, u64>, sub: ExtractState)
    requires
        fresh_ok(st),
        fresh_ok(sub),
        st.fresh <= sub.fresh,
        expr_below(t.multiplicity, st.fresh),
    ensures
        fresh_ok(inline_call(st, t, env, sub)),
{
    let n = sub.fresh;
    lemma_add_below(st, st.fresh);
    lemma_mono(st.fresh, n);
    lemma_build_below(n);
    let m = t.multiplicity;
    let gated = crate::pcl::gate_module(sub.module, m);
    let updated = crate::pcl::partial_eval_module(gated, env);
    assert forall|i: int| 0 <= i < updated.constraints.len() implies constraint_below(#[trigger] updated.constraints[i], n) by {
        let c = sub.module.constraints[i];
        assert(constraint_below(c, n));
        let g = gate_constraint(c, m);
        assert(constraint_below(g, n)) by {
            if let PicusConstraint::Eq(e) = c {
                assert forall|v: usize| #[trigger] occurs(*e, v) implies v < n by {
                    assert(occurs_in(c, v));
                }
                assert(constraint_below(c_zero(e_mul(*e, m)), n));
            }
        }
        assert(updated.constraints[i] == partial_eval_constraint(g, env));
        assert forall|v: usize| #[trigger] occurs_in(partial_eval_constraint(g, env), v) implies v < n by {
            lemma_partial_eval_constraint_occurs(g, env, v);
        }
    }
    assert forall|i: int| 0 <= i < updated.calls.len() implies call_below(#[trigger] updated.calls[i], n) by {
        let c = sub.module.calls[i];
        assert(call_below(c, n));
        let pc = updated.calls[i];
        assert forall|j: int| 0 <= j < pc.outputs.len() implies expr_below(#[trigger] pc.outputs[j], n) by {
            assert(expr_below(c.outputs[j], n));
            lemma_partial_eval_below(c.outputs[j], env, n);
        }
        assert forall|j: int| 0 <= j < pc.inputs.len() implies expr_below(#[trigger] pc.inputs[j], n) by {
            assert(expr_below(c.inputs[j], n));
            lemma_partial_eval_below(c.inputs[j], env, n);
        }
    }
    let r = inline_call(st, t, env, sub);
    let cs = st.module.constraints + updated.constraints;
    assert forall|i: int| 0 <= i < cs.len() implies constraint_below(#[trigger] cs[i], n) by {
        if i < st.module.constraints.len() {
            assert(cs[i] == st.module.constraints[i]);
        } else {
            assert(cs[i] == updated.constraints[i - st.module.constraints.len()]);
        }
    }
    let calls = st.module.calls + updated.calls;
    assert forall|i: int| 0 <= i < calls.len() implies call_below(#[trigger] calls[i], n) by {
        if i < st.module.calls.len() {
            assert(calls[i] == st.module.calls[i]);
        } else {
            assert(calls[i] == updated.calls[i - st.module.calls.len()]);
        }
    }
    let posts = st.module.postconditions + gated.postconditions;
    assert forall|i: int| 0 <= i < posts.len() implies constraint_below(#[trigger] posts[i], n) by {
        if i < st.module.postconditions.len() {
            assert(posts[i] == st.module.postconditions[i]);
        } else {
            assert(posts[i] == sub.module.postconditions[i - st.module.postconditions.len()]);
        }
    }
    assert(state_below(st, n));
}

/// Extracting a chip keeps the counter fresh: when every variable recorded so
/// far and every cell of the main row is below the counter, and every chip's
/// evaluation refers only to its own columns, then every variable of the
/// extracted module and of its remaining deferred calls is below the final
/// counter, which never goes back.
pub proof fn lemma_analyze_fresh(cfg: BuilderConfig, chip: ChipDesc, st: ExtractState, depth: nat)
    requires
        analyze_spec(cfg, chip, st, depth) is Some,
        fresh_ok(st),
        0 <= st.fresh,
        atoms_below(cfg.main, st.fresh),
        cfg.main.len() == chip.width,
        chip_columns_ok(chip),
        chips_columns_ok(cfg.chips),
    ensures
        fresh_ok(analyze_spec(cfg, chip, st, depth).unwrap()),
        st.fresh <= analyze_spec(cfg, chip, st, depth).unwrap().fresh,
        atoms_below(cfg.main, analyze_spec(cfg, chip, st, depth).unwrap().fresh),
    decreases depth, 1int, 0int,
{
    lemma_run_air_fresh(cfg, st, chip.air@);
    let s = run_air(cfg, st, chip.air@).unwrap();
    lemma_process_tasks_fresh(cfg, s, depth);
    lemma_mono(st.fresh, analyze_spec(cfg, chip, st, depth).unwrap().fresh);
}

/// Inlining the deferred calls keeps the counter fresh.
pub proof fn lemma_process_tasks_fresh(cfg: BuilderConfig, st: ExtractState, depth: nat)
    requires
        process_tasks(cfg, st, depth) is Some,
        fresh_ok(st),
        0 <= st.fresh,
        chips_columns_ok(cfg.chips),
    ensures
        fresh_ok(process_tasks(cfg, st, depth).unwrap()),
        st.fresh <= process_tasks(cfg, st, depth).unwrap().fresh,
    decreases depth, 0int, st.tasks.len(),
{
    if st.tasks.len() > 0 {
        let t = st.tasks.last();
        assert(task_below(st.tasks[st.tasks.len() - 1], st.fresh));
        let st1 = ExtractState { tasks: st.tasks.drop_last(), ..st };
        assert forall|i: int| 0 <= i < st1.tasks.len() implies task_below(#[trigger] st1.tasks[i], st1.fresh) by {
            assert(st1.tasks[i] == st.tasks[i]);
        }
        lemma_first_chip(cfg.chips, t.chip_name);
        let target = cfg.chips[first_chip_with_name(cfg.chips, t.chip_name)];
        assert(chip_columns_ok(target));
        let r = crate::picus_calls::colrange_in(target.picus_info.name_to_colrange@, t.selector).unwrap();
        let env = call_env(t, target.picus_info, r.0 as int).unwrap();
        let sub_cfg = call_config(cfg, t, env);
        let sub_start = call_start(t, st1.fresh);
        let row = sub_cfg.main;
        assert forall|i: int| 0 <= i < row.len() implies (#[trigger] row[i] matches PicusAtom::Var(x) ==> x < st1.fresh) by {
            assert(t.main_vars[i] matches PicusAtom::Var(x) ==> x < st1.fresh);
        }
        assert(fresh_ok(sub_start));
        lemma_analyze_fresh(sub_cfg, target, sub_start, (depth - 1) as nat);
        let sub = analyze_spec(sub_cfg, target, sub_start, (depth - 1) as nat).unwrap();
        lemma_inline_fresh(st1, t, env, sub);
        let merged = inline_call(st1, t, env, sub);
        lemma_process_tasks_fresh(cfg, merged, depth);
    }
}

/// The variable the counter names next occurs nowhere in what was recorded:
/// not in a port, a constraint, a call, a postcondition or a deferred call.
pub proof fn lemma_counter_unused(st: ExtractState)
    requires
        fresh_ok(st),
        0 <= st.fresh <= usize::MAX,
    ensures
        ({
            let v = st.fresh as usize;
            &&& forall|i: int| 0 <= i < st.module.inputs.len() ==> !occurs(#[trigger] st.module.inputs[i], v)
            &&& forall|i: int| 0 <= i < st.module.outputs.len() ==> !occurs(#[trigger] st.module.outputs[i], v)
            &&& forall|i: int| 0 <= i < st.module.constraints.len() ==> !occurs_in(#[trigger] st.module.constraints[i], v)
            &&& forall|i: int, j: int|
                0 <= i < st.module.calls.len() && 0 <= j < st.module.calls[i].inputs.len() ==> !occurs(
                    #[trigger] st.module.calls[i].inputs[j],
                    v,
                )
            &&& forall|i: int, j: int|
                0 <= i < st.module.calls.len() && 0 <= j < st.module.calls[i].outputs.len() ==> !occurs(
                    #[trigger] st.module.calls[i].outputs[j],
                    v,
                )
            &&& forall|i: int| 0 <= i < st.module.postconditions.len() ==> !occurs_in(#[trigger] st.module.postconditions[i], v)
            &&& forall|i: int, j: int|
                0 <= i < st.tasks.len() && 0 <= j < st.tasks[i].main_vars.len() ==> #[trigger] st.tasks[i].main_vars[j]
                    != PicusAtom::Var(v)
            &&& forall|i: int| 0 <= i < st.tasks.len() ==> !occurs(#[trigger] st.tasks[i].multiplicity, v)
        }),
{
    let v = st.fresh as usize;
    assert forall|i: int, j: int| 0 <= i < st.module.calls.len() && 0 <= j < st.module.calls[i].inputs.len() implies !occurs(
        #[trigger] st.module.calls[i].inputs[j],
        v,
    ) by {
        assert(call_below(st.module.calls[i], st.fresh));
        assert(expr_below(st.module.calls[i].inputs[j], st.fresh));
    }
    assert forall|i: int, j: int| 0 <= i < st.module.calls.len() && 0 <= j < st.module.calls[i].outputs.len() implies !occurs(
        #[trigger] st.module.calls[i].outputs[j],
        v,
    ) by {
        assert(call_below(st.module.calls[i], st.fresh));
        assert(expr_below(st.module.calls[i].outputs[j], st.fresh));
    }
    assert forall|i: int, j: int| 0 <= i < st.tasks.len() && 0 <= j < st.tasks[i].main_vars.len() implies #[trigger] st.tasks[i].main_vars[j]
        != PicusAtom::Var(v) by {
        assert(task_below(st.tasks[i], st.fresh));
        assert(st.tasks[i].main_vars[j] matches PicusAtom::Var(x) ==> x < st.fresh);
    }
    assert forall|i: int| 0 <= i < st.tasks.len() implies !occurs(#[trigger] st.tasks[i].multiplicity, v) by {
        assert(task_below(st.tasks[i], st.fresh));
    }
}

/// Every extraction pass of a chip hands out only new variables: the chip's
/// row is its variables `0..width` (some fixed to constants), the counter
/// starts at `width + 1`, and when every chip's evaluation refers only to its
/// own columns, every variable of the extracted module and of its deferred
/// calls is below the final counter.
pub proof fn lemma_pass_fresh(
    chip: ChipDesc,
    chips: Seq<ChipDesc>,
    specs: Seq<OpcodeSpec>,
    shr_mode: ShrCarrySummaryMode,
    depth: nat,
    selected: Option<usize>,
    mode: SubmoduleMode,
)
    requires
        pass_result(chip, chips, specs, shr_mode, depth, selected, mode) is Some,
        chip_columns_ok(chip),
        chips_columns_ok(chips),
    ensures
        fresh_ok(pass_result(chip, chips, specs, shr_mode, depth, selected, mode).unwrap()),
        chip.width + 1 <= pass_result(chip, chips, specs, shr_mode, depth, selected, mode).unwrap().fresh,
{
    let env = selector_env(chip.picus_info, selected);
    let cfg = chip_config(chip, chips, specs, env, mode, shr_mode);
    let st = chip_start(chip, chip.width + 1);
    let row = cfg.main;
    let base = atom_vars(0, chip.width as int);
    assert forall|i: int| 0 <= i < row.len() implies (#[trigger] row[i] matches PicusAtom::Var(x) ==> x < st.fresh) by {
        assert(base[i] == PicusAtom::Var(i as usize));
    }
    assert(fresh_ok(st));
    lemma_analyze_fresh(cfg, chip, st, depth);
}

} // verus!
