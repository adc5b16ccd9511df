//! Picus programs: expressions, constraints, module calls and modules over the
//! KoalaBear field, with their meaning under an assignment of the variables and
//! partial evaluation under fixed assignments.
use vstd::prelude::*;
use std::collections::BTreeMap;
use vstd::arithmetic::div_mod::*;
use crate::lookup::KOALA_BEAR_PRIME;

verus! {

broadcast use {vstd::std_specs::btree::group_btree_axioms, vstd::laws_cmp::group_laws_cmp};

/// A trace cell: a variable or a constant.
#[derive(Clone, Copy, Debug, PartialEq, Eq, Structural)]
pub enum PicusAtom {
    Var(usize),
    Const(u64),
}

impl PicusAtom {
    pub fn new_var(i: usize) -> (a: PicusAtom)
        ensures
            a == PicusAtom::Var(i),
    {
        PicusAtom::Var(i)
    }
}

/// An arithmetic expression over the field.
#[derive(Debug, PartialEq, Eq)]
pub enum PicusExpr {
    Const(u64),
    Var(usize),
    Add(Box<PicusExpr>, Box<PicusExpr>),
    Sub(Box<PicusExpr>, Box<PicusExpr>),
    Mul(Box<PicusExpr>, Box<PicusExpr>),
}

/// A constraint of a Picus module.
#[derive(Debug, PartialEq, Eq)]
pub enum PicusConstraint {
    /// `a < b` on canonical representatives.
    Lt(Box<PicusExpr>, Box<PicusExpr>),
    /// `a <= b` on canonical representatives.
    Leq(Box<PicusExpr>, Box<PicusExpr>),
    /// `e == 0`.
    Eq(Box<PicusExpr>),
    Implies(Box<PicusConstraint>, Box<PicusConstraint>),
    Iff(Box<PicusConstraint>, Box<PicusConstraint>),
    And(Box<PicusConstraint>, Box<PicusConstraint>),
}

/// The expression of an atom.
pub open spec fn atom_expr(a: PicusAtom) -> PicusExpr {
    match a {
        PicusAtom::Var(v) => PicusExpr::Var(v),
        PicusAtom::Const(c) => PicusExpr::Const(c),
    }
}

pub open spec fn e_add(a: PicusExpr, b: PicusExpr) -> PicusExpr {
    PicusExpr::Add(Box::new(a), Box::new(b))
}

pub open spec fn e_sub(a: PicusExpr, b: PicusExpr) -> PicusExpr {
    PicusExpr::Sub(Box::new(a), Box::new(b))
}

pub open spec fn e_mul(a: PicusExpr, b: PicusExpr) -> PicusExpr {
    PicusExpr::Mul(Box::new(a), Box::new(b))
}

pub open spec fn c_lt(a: PicusExpr, b: PicusExpr) -> PicusConstraint {
    PicusConstraint::Lt(Box::new(a), Box::new(b))
}

pub open spec fn c_leq(a: PicusExpr, b: PicusExpr) -> PicusConstraint {
    PicusConstraint::Leq(Box::new(a), Box::new(b))
}

pub open spec fn c_zero(e: PicusExpr) -> PicusConstraint {
    PicusConstraint::Eq(Box::new(e))
}

/// `a == b`, stated as `a - b == 0`.
pub open spec fn c_equal(a: PicusExpr, b: PicusExpr) -> PicusConstraint {
    c_zero(e_sub(a, b))
}

/// `x` is a bit, stated as `x * (x - 1) == 0`.
pub open spec fn c_bit(x: PicusExpr) -> PicusConstraint {
    c_zero(e_mul(x, e_sub(x, PicusExpr::Const(1))))
}

pub open spec fn c_implies(a: PicusConstraint, b: PicusConstraint) -> PicusConstraint {
    PicusConstraint::Implies(Box::new(a), Box::new(b))
}

pub open spec fn c_iff(a: PicusConstraint, b: PicusConstraint) -> PicusConstraint {
    PicusConstraint::Iff(Box::new(a), Box::new(b))
}

pub open spec fn c_and(a: PicusConstraint, b: PicusConstraint) -> PicusConstraint {
    PicusConstraint::And(Box::new(a), Box::new(b))
}

// ---------------------------------------------------------------------------
// Meaning
// ---------------------------------------------------------------------------

/// The value of an expression in the field (a canonical representative),
/// given the values of the variables.
pub open spec fn eval_expr(e: PicusExpr, asg: spec_fn(usize) -> int) -> int
    decreases e,
{
    let p = KOALA_BEAR_PRIME as int;
    match e {
        PicusExpr::Const(c) => (c as int) % p,
        PicusExpr::Var(v) => asg(v) % p,
        PicusExpr::Add(a, b) => (eval_expr(*a, asg) + eval_expr(*b, asg)) % p,
        PicusExpr::Sub(a, b) => (eval_expr(*a, asg) - eval_expr(*b, asg)) % p,
        PicusExpr::Mul(a, b) => (eval_expr(*a, asg) * eval_expr(*b, asg)) % p,
    }
}

/// Whether a constraint holds under an assignment.
pub open spec fn holds(c: PicusConstraint, asg: spec_fn(usize) -> int) -> bool
    decreases c,
{
    match c {
        PicusConstraint::Lt(a, b) => eval_expr(*a, asg) < eval_expr(*b, asg),
        PicusConstraint::Leq(a, b) => eval_expr(*a, asg) <= eval_expr(*b, asg),
        PicusConstraint::Eq(e) => eval_expr(*e, asg) == 0,
        PicusConstraint::Implies(a, b) => holds(*a, asg) ==> holds(*b, asg),
        PicusConstraint::Iff(a, b) => holds(*a, asg) <==> holds(*b, asg),
        PicusConstraint::And(a, b) => holds(*a, asg) && holds(*b, asg),
    }
}

// ---------------------------------------------------------------------------
// Partial evaluation
// ---------------------------------------------------------------------------

/// Canonical representative of a constant.
pub open spec fn canon(c: u64) -> u64 {
    (c as int % KOALA_BEAR_PRIME as int) as u64
}

pub open spec fn fold_add(a: PicusExpr, b: PicusExpr) -> PicusExpr {
    match (a, b) {
        (PicusExpr::Const(x), PicusExpr::Const(y)) => PicusExpr::Const(
            ((canon(x) + canon(y)) % KOALA_BEAR_PRIME as int) as u64,
        ),
        _ => e_add(a, b),
    }
}

pub open spec fn fold_sub(a: PicusExpr, b: PicusExpr) -> PicusExpr {
    match (a, b) {
        (PicusExpr::Const(x), PicusExpr::Const(y)) => PicusExpr::Const(
            ((canon(x) + KOALA_BEAR_PRIME - canon(y)) % KOALA_BEAR_PRIME as int) as u64,
        ),
        _ => e_sub(a, b),
    }
}

pub open spec fn fold_mul(a: PicusExpr, b: PicusExpr) -> PicusExpr {
    match (a, b) {
        (PicusExpr::Const(x), PicusExpr::Const(y)) => PicusExpr::Const(
            ((canon(x) * canon(y)) % KOALA_BEAR_PRIME as int) as u64,
        ),
        _ => e_mul(a, b),
    }
}

/// Substitutes the fixed variables of `env` by their values and folds every
/// operation whose operands became constants.
pub open spec fn partial_eval(e: PicusExpr, env: Map<usize, u64>) -> PicusExpr
    decreases e,
{
    match e {
        PicusExpr::Const(c) => PicusExpr::Const(c),
        PicusExpr::Var(v) => if env.contains_key(v) {
            PicusExpr::Const(env[v])
        } else {
            PicusExpr::Var(v)
        },
        PicusExpr::Add(a, b) => fold_add(partial_eval(*a, env), partial_eval(*b, env)),
        PicusExpr::Sub(a, b) => fold_sub(partial_eval(*a, env), partial_eval(*b, env)),
        PicusExpr::Mul(a, b) => fold_mul(partial_eval(*a, env), partial_eval(*b, env)),
    }
}

/// An assignment agrees with fixed values.
pub open spec fn agrees_with(asg: spec_fn(usize) -> int, env: Map<usize, u64>) -> bool {
    forall|v: usize| env.contains_key(v) ==> #[trigger] asg(v) == env[v] as int
}

/// Partial evaluation keeps the meaning of an expression under every
/// assignment that agrees with the fixed values.
pub proof fn lemma_partial_eval_sound(e: PicusExpr, env: Map<usize, u64>, asg: spec_fn(usize) -> int)
    requires
        agrees_with(asg, env),
    ensures
        eval_expr(partial_eval(e, env), asg) == eval_expr(e, asg),
    decreases e,
{
    let p = KOALA_BEAR_PRIME as int;
    match e {
        PicusExpr::Const(c) => {},
        PicusExpr::Var(v) => {},
        PicusExpr::Add(a, b) => {
            lemma_partial_eval_sound(*a, env, asg);
            lemma_partial_eval_sound(*b, env, asg);
            let pa = partial_eval(*a, env);
            let pb = partial_eval(*b, env);
            if let (PicusExpr::Const(x), PicusExpr::Const(y)) = (pa, pb) {
                lemma_mod_bound(x as int, p);
                lemma_mod_bound(y as int, p);
                lemma_mod_bound(canon(x) + canon(y), p);
                lemma_mod_twice(canon(x) + canon(y), p);
            }
        },
        PicusExpr::Sub(a, b) => {
            lemma_partial_eval_sound(*a, env, asg);
            lemma_partial_eval_sound(*b, env, asg);
            let pa = partial_eval(*a, env);
            let pb = partial_eval(*b, env);
            if let (PicusExpr::Const(x), PicusExpr::Const(y)) = (pa, pb) {
                lemma_mod_bound(x as int, p);
                lemma_mod_bound(y as int, p);
                let s = canon(x) + p - canon(y);
                lemma_mod_bound(s, p);
                lemma_mod_twice(s, p);
                lemma_mod_add_multiples_vanish(canon(x) - canon(y), p);
            }
        },
        PicusExpr::Mul(a, b) => {
            lemma_partial_eval_sound(*a, env, asg);
            lemma_partial_eval_sound(*b, env, asg);
            let pa = partial_eval(*a, env);
            let pb = partial_eval(*b, env);
            if let (PicusExpr::Const(x), PicusExpr::Const(y)) = (pa, pb) {
                lemma_mod_bound(x as int, p);
                lemma_mod_bound(y as int, p);
                assert(canon(x) * canon(y) < p * p) by (nonlinear_arith)
                    requires
                        0 <= canon(x) < p,
                        0 <= canon(y) < p,
                ;
                assert(0 <= canon(x) * canon(y)) by (nonlinear_arith)
                    requires
                        0 <= canon(x),
                        0 <= canon(y),
                ;
                lemma_mod_bound(canon(x) * canon(y), p);
                lemma_mod_twice(canon(x) * canon(y), p);
            }
        },
    }
}

/// Every variable of `e` is fixed by `env`.
pub open spec fn all_vars_fixed(e: PicusExpr, env: Map<usize, u64>) -> bool
    decreases e,
{
    match e {
        PicusExpr::Const(_) => true,
        PicusExpr::Var(v) => env.contains_key(v),
        PicusExpr::Add(a, b) => all_vars_fixed(*a, env) && all_vars_fixed(*b, env),
        PicusExpr::Sub(a, b) => all_vars_fixed(*a, env) && all_vars_fixed(*b, env),
        PicusExpr::Mul(a, b) => all_vars_fixed(*a, env) && all_vars_fixed(*b, env),
    }
}

/// An expression whose variables are all fixed folds to a constant.
pub proof fn lemma_partial_eval_folds(e: PicusExpr, env: Map<usize, u64>)
    requires
        all_vars_fixed(e, env),
    ensures
        partial_eval(e, env) is Const,
    decreases e,
{
    match e {
        PicusExpr::Const(_) => {},
        PicusExpr::Var(_) => {},
        PicusExpr::Add(a, b) => {
            lemma_partial_eval_folds(*a, env);
            lemma_partial_eval_folds(*b, env);
        },
        PicusExpr::Sub(a, b) => {
            lemma_partial_eval_folds(*a, env);
            lemma_partial_eval_folds(*b, env);
        },
        PicusExpr::Mul(a, b) => {
            lemma_partial_eval_folds(*a, env);
            lemma_partial_eval_folds(*b, env);
        },
    }
}

/// Partial evaluation with nothing fixed keeps every expression's meaning.
pub proof fn lemma_partial_eval_empty(e: PicusExpr, asg: spec_fn(usize) -> int)
    ensures
        eval_expr(partial_eval(e, Map::empty()), asg) == eval_expr(e, asg),
{
    lemma_partial_eval_sound(e, Map::empty(), asg);
}

// ---------------------------------------------------------------------------
// Executable constructors and partial evaluation
// ---------------------------------------------------------------------------

impl PicusExpr {
    /// A copy of the expression.
    pub fn duplicate(&self) -> (e: PicusExpr)
        ensures
            e == *self,
        decreases self,
    {
        match self {
            PicusExpr::Const(c) => PicusExpr::Const(*c),
            PicusExpr::Var(v) => PicusExpr::Var(*v),
            PicusExpr::Add(a, b) => PicusExpr::Add(Box::new((**a).duplicate()), Box::new((**b).duplicate())),
            PicusExpr::Sub(a, b) => PicusExpr::Sub(Box::new((**a).duplicate()), Box::new((**b).duplicate())),
            PicusExpr::Mul(a, b) => PicusExpr::Mul(Box::new((**a).duplicate()), Box::new((**b).duplicate())),
        }
    }

    pub fn plus(self, other: PicusExpr) -> (e: PicusExpr)
        ensures
            e == e_add(self, other),
    {
        PicusExpr::Add(Box::new(self), Box::new(other))
    }

    pub fn minus(self, other: PicusExpr) -> (e: PicusExpr)
        ensures
            e == e_sub(self, other),
    {
        PicusExpr::Sub(Box::new(self), Box::new(other))
    }

    pub fn times(self, other: PicusExpr) -> (e: PicusExpr)
        ensures
            e == e_mul(self, other),
    {
        PicusExpr::Mul(Box::new(self), Box::new(other))
    }

    /// The expression of an atom.
    pub fn from_atom(a: PicusAtom) -> (e: PicusExpr)
        ensures
            e == atom_expr(a),
    {
        match a {
            PicusAtom::Var(v) => PicusExpr::Var(v),
            PicusAtom::Const(c) => PicusExpr::Const(c),
        }
    }

    pub fn is_const(&self) -> (b: bool)
        ensures
            b == (*self is Const),
    {
        match self {
            PicusExpr::Const(_) => true,
            _ => false,
        }
    }
}

impl PicusConstraint {
    pub fn new_lt(a: PicusExpr, b: PicusExpr) -> (c: PicusConstraint)
        ensures
            c == c_lt(a, b),
    {
        PicusConstraint::Lt(Box::new(a), Box::new(b))
    }

    pub fn new_leq(a: PicusExpr, b: PicusExpr) -> (c: PicusConstraint)
        ensures
            c == c_leq(a, b),
    {
        PicusConstraint::Leq(Box::new(a), Box::new(b))
    }

    pub fn new_equality(a: PicusExpr, b: PicusExpr) -> (c: PicusConstraint)
        ensures
            c == c_equal(a, b),
    {
        PicusConstraint::Eq(Box::new(PicusExpr::Sub(Box::new(a), Box::new(b))))
    }

    pub fn new_bit(x: PicusExpr) -> (c: PicusConstraint)
        ensures
            c == c_bit(x),
    {
        let y = x.duplicate();
        PicusConstraint::Eq(Box::new(PicusExpr::Mul(Box::new(x), Box::new(PicusExpr::Sub(Box::new(y), Box::new(PicusExpr::Const(1)))))))
    }

    /// A copy of the constraint.
    pub fn duplicate(&self) -> (c: PicusConstraint)
        ensures
            c == *self,
        decreases self,
    {
        match self {
            PicusConstraint::Lt(a, b) => PicusConstraint::Lt(Box::new((**a).duplicate()), Box::new((**b).duplicate())),
            PicusConstraint::Leq(a, b) => PicusConstraint::Leq(Box::new((**a).duplicate()), Box::new((**b).duplicate())),
            PicusConstraint::Eq(e) => PicusConstraint::Eq(Box::new((**e).duplicate())),
            PicusConstraint::Implies(a, b) => PicusConstraint::Implies(Box::new((**a).duplicate()), Box::new((**b).duplicate())),
            PicusConstraint::Iff(a, b) => PicusConstraint::Iff(Box::new((**a).duplicate()), Box::new((**b).duplicate())),
            PicusConstraint::And(a, b) => PicusConstraint::And(Box::new((**a).duplicate()), Box::new((**b).duplicate())),
        }
    }
}

fn canon_exec(c: u64) -> (r: u64)
    ensures
        r == canon(c),
        r < KOALA_BEAR_PRIME,
{
    c % KOALA_BEAR_PRIME
}

/// Substitutes the fixed variables of `env` by their values and folds every
/// operation whose operands became constants.
pub fn partial_evaluate_expr(e: &PicusExpr, env: &BTreeMap<usize, u64>) -> (r: PicusExpr)
    ensures
        r == partial_eval(*e, env@),
    decreases e,
{
    match e {
        PicusExpr::Const(c) => PicusExpr::Const(*c),
        PicusExpr::Var(v) => match env.get(v) {
            Some(value) => PicusExpr::Const(*value),
            None => PicusExpr::Var(*v),
        },
        PicusExpr::Add(a, b) => {
            let pa = partial_evaluate_expr(a, env);
            let pb = partial_evaluate_expr(b, env);
            match (&pa, &pb) {
                (PicusExpr::Const(x), PicusExpr::Const(y)) => PicusExpr::Const(
                    (canon_exec(*x) + canon_exec(*y)) % KOALA_BEAR_PRIME,
                ),
                _ => PicusExpr::Add(Box::new(pa), Box::new(pb)),
            }
        },
        PicusExpr::Sub(a, b) => {
            let pa = partial_evaluate_expr(a, env);
            let pb = partial_evaluate_expr(b, env);
            match (&pa, &pb) {
                (PicusExpr::Const(x), PicusExpr::Const(y)) => PicusExpr::Const(
                    (canon_exec(*x) + KOALA_BEAR_PRIME - canon_exec(*y)) % KOALA_BEAR_PRIME,
                ),
                _ => PicusExpr::Sub(Box::new(pa), Box::new(pb)),
            }
        },
        PicusExpr::Mul(a, b) => {
            let pa = partial_evaluate_expr(a, env);
            let pb = partial_evaluate_expr(b, env);
            match (&pa, &pb) {
                (PicusExpr::Const(x), PicusExpr::Const(y)) => {
                    let cx = canon_exec(*x);
                    let cy = canon_exec(*y);
                    assert(cx * cy <= 0x7f000000 * 0x7f000000) by (nonlinear_arith)
                        requires
                            cx < 0x7f000001,
                            cy < 0x7f000001,
                    ;
                    PicusExpr::Const((cx * cy) % KOALA_BEAR_PRIME)
                },
                _ => PicusExpr::Mul(Box::new(pa), Box::new(pb)),
            }
        },
    }
}

// ---------------------------------------------------------------------------
// Calls and modules
// ---------------------------------------------------------------------------

/// A call of another module: `outputs = mod_name(inputs)`.
#[derive(Debug, PartialEq, Eq)]
pub struct PicusCall {
    pub mod_name: String,
    pub outputs: Vec<PicusExpr>,
    pub inputs: Vec<PicusExpr>,
}

#[verifier::ext_equal]
pub struct CallView {
    pub mod_name: Seq<char>,
    pub outputs: Seq<PicusExpr>,
    pub inputs: Seq<PicusExpr>,
}

impl View for PicusCall {
    type V = CallView;

    open spec fn view(&self) -> CallView {
        CallView { mod_name: self.mod_name@, outputs: self.outputs@, inputs: self.inputs@ }
    }
}

/// A copy of a sequence of expressions.
pub fn copy_exprs(v: &[PicusExpr]) -> (r: Vec<PicusExpr>)
    ensures
        r@ == v@,
{
    let mut r: Vec<PicusExpr> = Vec::new();
    let mut i: usize = 0;
    while i < v.len()
        invariant
            i <= v@.len(),
            r@ == v@.subrange(0, i as int),
        decreases v@.len() - i,
    {
        r.push(v[i].duplicate());
        assert(v@.subrange(0, i + 1) =~= v@.subrange(0, i as int).push(v@[i as int]));
        i += 1;
    }
    assert(v@.subrange(0, v@.len() as int) =~= v@);
    r
}

/// A copy of a sequence of constraints.
pub fn copy_constraints(v: &[PicusConstraint]) -> (r: Vec<PicusConstraint>)
    ensures
        r@ == v@,
{
    let mut r: Vec<PicusConstraint> = Vec::new();
    let mut i: usize = 0;
    while i < v.len()
        invariant
            i <= v@.len(),
            r@ == v@.subrange(0, i as int),
        decreases v@.len() - i,
    {
        r.push(v[i].duplicate());
        assert(v@.subrange(0, i + 1) =~= v@.subrange(0, i as int).push(v@[i as int]));
        i += 1;
    }
    assert(v@.subrange(0, v@.len() as int) =~= v@);
    r
}

impl PicusCall {
    /// The call `outputs = mod_name(inputs)`.
    pub fn new(mod_name: String, outputs: &[PicusExpr], inputs: &[PicusExpr]) -> (call: PicusCall)
        ensures
            call@ == (CallView { mod_name: mod_name@, outputs: outputs@, inputs: inputs@ }),
    {
        PicusCall { mod_name, outputs: copy_exprs(outputs), inputs: copy_exprs(inputs) }
    }

    /// A copy of the call.
    pub fn duplicate(&self) -> (c: PicusCall)
        ensures
            c@ == self@,
    {
        PicusCall {
            mod_name: self.mod_name.clone(),
            outputs: copy_exprs(self.outputs.as_slice()),
            inputs: copy_exprs(self.inputs.as_slice()),
        }
    }
}

/// A Picus module: its ports, constraints, calls, postconditions, and the
/// values assumed to be deterministic.
#[derive(Debug, PartialEq, Eq)]
pub struct PicusModule {
    pub name: String,
    pub inputs: Vec<PicusExpr>,
    pub outputs: Vec<PicusExpr>,
    pub constraints: Vec<PicusConstraint>,
    pub calls: Vec<PicusCall>,
    pub postconditions: Vec<PicusConstraint>,
    pub assume_deterministic: Vec<PicusExpr>,
}

#[verifier::ext_equal]
pub struct ModuleView {
    pub name: Seq<char>,
    pub inputs: Seq<PicusExpr>,
    pub outputs: Seq<PicusExpr>,
    pub constraints: Seq<PicusConstraint>,
    pub calls: Seq<CallView>,
    pub postconditions: Seq<PicusConstraint>,
    pub assume_deterministic: Seq<PicusExpr>,
}

impl View for PicusModule {
    type V = ModuleView;

    open spec fn view(&self) -> ModuleView {
        ModuleView {
            name: self.name@,
            inputs: self.inputs@,
            outputs: self.outputs@,
            constraints: self.constraints@,
            calls: self.calls@.map_values(|c: PicusCall| c@),
            postconditions: self.postconditions@,
            assume_deterministic: self.assume_deterministic@,
        }
    }
}

/// The variables `start, start + 1, ..., start + n - 1`.
pub open spec fn var_range(start: int, n: int) -> Seq<PicusExpr> {
    Seq::new(n as nat, |i: int| PicusExpr::Var((start + i) as usize))
}

/// A module with no constraints.
pub open spec fn empty_module(name: Seq<char>) -> ModuleView {
    ModuleView {
        name,
        inputs: Seq::empty(),
        outputs: Seq::empty(),
        constraints: Seq::empty(),
        calls: Seq::empty(),
        postconditions: Seq::empty(),
        assume_deterministic: Seq::empty(),
    }
}

/// A module with no constraints whose inputs are the variables `0..num_inputs`
/// and whose outputs are the next `num_outputs` variables.
pub open spec fn empty_module_with_ports(name: Seq<char>, num_inputs: int, num_outputs: int) -> ModuleView {
    ModuleView {
        inputs: var_range(0, num_inputs),
        outputs: var_range(num_inputs, num_outputs),
        ..empty_module(name)
    }
}

fn var_range_exec(start: usize, n: usize) -> (r: Vec<PicusExpr>)
    requires
        start + n <= usize::MAX,
    ensures
        r@ == var_range(start as int, n as int),
{
    let mut r: Vec<PicusExpr> = Vec::new();
    let mut i: usize = 0;
    while i < n
        invariant
            i <= n,
            start + n <= usize::MAX,
            r@ == var_range(start as int, i as int),
        decreases n - i,
    {
        r.push(PicusExpr::Var(start + i));
        assert(r@ =~= var_range(start as int, i + 1));
        i += 1;
    }
    r
}

impl PicusModule {
    /// A module with no ports and no constraints.
    pub fn new(name: String) -> (m: PicusModule)
        ensures
            m@ == empty_module(name@),
    {
        let m = PicusModule {
            name,
            inputs: Vec::new(),
            outputs: Vec::new(),
            constraints: Vec::new(),
            calls: Vec::new(),
            postconditions: Vec::new(),
            assume_deterministic: Vec::new(),
        };
        assert(m@.calls =~= Seq::<CallView>::empty());
        m
    }

    /// A module with no constraints whose inputs are the variables
    /// `0..num_inputs` and whose outputs are the next `num_outputs` variables.
    pub fn build_empty(name: String, num_inputs: usize, num_outputs: usize) -> (m: PicusModule)
        requires
            num_inputs + num_outputs <= usize::MAX,
        ensures
            m@ == empty_module_with_ports(name@, num_inputs as int, num_outputs as int),
    {
        let mut m = PicusModule::new(name);
        m.inputs = var_range_exec(0, num_inputs);
        m.outputs = var_range_exec(num_inputs, num_outputs);
        m
    }
}

// ---------------------------------------------------------------------------
// Whole-module operations
// ---------------------------------------------------------------------------

/// Partial evaluation of every expression of a constraint.
pub open spec fn partial_eval_constraint(c: PicusConstraint, env: Map<usize, u64>) -> PicusConstraint
    decreases c,
{
    match c {
        PicusConstraint::Lt(a, b) => c_lt(partial_eval(*a, env), partial_eval(*b, env)),
        PicusConstraint::Leq(a, b) => c_leq(partial_eval(*a, env), partial_eval(*b, env)),
        PicusConstraint::Eq(e) => c_zero(partial_eval(*e, env)),
        PicusConstraint::Implies(a, b) => c_implies(partial_eval_constraint(*a, env), partial_eval_constraint(*b, env)),
        PicusConstraint::Iff(a, b) => c_iff(partial_eval_constraint(*a, env), partial_eval_constraint(*b, env)),
        PicusConstraint::And(a, b) => c_and(partial_eval_constraint(*a, env), partial_eval_constraint(*b, env)),
    }
}

/// Partial evaluation keeps the meaning of a constraint under every
/// assignment that agrees with the fixed values.
pub proof fn lemma_partial_eval_constraint_sound(c: PicusConstraint, env: Map<usize, u64>, asg: spec_fn(usize) -> int)
    requires
        agrees_with(asg, env),
    ensures
        holds(partial_eval_constraint(c, env), asg) == holds(c, asg),
    decreases c,
{
    match c {
        PicusConstraint::Lt(a, b) => {
            lemma_partial_eval_sound(*a, env, asg);
            lemma_partial_eval_sound(*b, env, asg);
        },
        PicusConstraint::Leq(a, b) => {
            lemma_partial_eval_sound(*a, env, asg);
            lemma_partial_eval_sound(*b, env, asg);
        },
        PicusConstraint::Eq(e) => {
            lemma_partial_eval_sound(*e, env, asg);
        },
        PicusConstraint::Implies(a, b) => {
            lemma_partial_eval_constraint_sound(*a, env, asg);
            lemma_partial_eval_constraint_sound(*b, env, asg);
        },
        PicusConstraint::Iff(a, b) => {
            lemma_partial_eval_constraint_sound(*a, env, asg);
            lemma_partial_eval_constraint_sound(*b, env, asg);
        },
        PicusConstraint::And(a, b) => {
            lemma_partial_eval_constraint_sound(*a, env, asg);
            lemma_partial_eval_constraint_sound(*b, env, asg);
        },
    }
}

pub open spec fn partial_eval_all(es: Seq<PicusExpr>, env: Map<usize, u64>) -> Seq<PicusExpr> {
    es.map_values(|e: PicusExpr| partial_eval(e, env))
}

pub open spec fn partial_eval_constraints(cs: Seq<PicusConstraint>, env: Map<usize, u64>) -> Seq<PicusConstraint> {
    cs.map_values(|c: PicusConstraint| partial_eval_constraint(c, env))
}

pub open spec fn partial_eval_call(c: CallView, env: Map<usize, u64>) -> CallView {
    CallView { mod_name: c.mod_name, outputs: partial_eval_all(c.outputs, env), inputs: partial_eval_all(c.inputs, env) }
}

/// A module with every expression partially evaluated under `env`.
pub open spec fn partial_eval_module(m: ModuleView, env: Map<usize, u64>) -> ModuleView {
    ModuleView {
        name: m.name,
        inputs: partial_eval_all(m.inputs, env),
        outputs: partial_eval_all(m.outputs, env),
        constraints: partial_eval_constraints(m.constraints, env),
        calls: m.calls.map_values(|c: CallView| partial_eval_call(c, env)),
        postconditions: partial_eval_constraints(m.postconditions, env),
        assume_deterministic: partial_eval_all(m.assume_deterministic, env),
    }
}

/// An equality constraint `e == 0` guarded by a multiplicity: `e * m == 0`.
/// Other constraints are unchanged.
pub open spec fn gate_constraint(c: PicusConstraint, m: PicusExpr) -> PicusConstraint {
    match c {
        PicusConstraint::Eq(e) => c_zero(e_mul(*e, m)),
        _ => c,
    }
}

/// A module whose equality constraints are guarded by the multiplicity `m`.
pub open spec fn gate_module(mv: ModuleView, m: PicusExpr) -> ModuleView {
    ModuleView { constraints: mv.constraints.map_values(|c: PicusConstraint| gate_constraint(c, m)), ..mv }
}

/// A guarded equality holds whenever the multiplicity is zero, and means the
/// same as the unguarded one when the multiplicity is one.
pub proof fn lemma_gate_constraint(c: PicusConstraint, m: PicusExpr, asg: spec_fn(usize) -> int)
    ensures
        c is Eq && eval_expr(m, asg) == 0 ==> holds(gate_constraint(c, m), asg),
        eval_expr(m, asg) == 1 ==> holds(gate_constraint(c, m), asg) == holds(c, asg),
{
    let p = KOALA_BEAR_PRIME as int;
    if let PicusConstraint::Eq(e) = c {
        let x = eval_expr(*e, asg);
        assert(0 <= x < p) by {
            lemma_eval_canonical(*e, asg);
        }
        if eval_expr(m, asg) == 1 {
            lemma_small_mod(x as nat, p as nat);
        }
    }
}

/// Every expression evaluates to a canonical representative.
pub proof fn lemma_eval_canonical(e: PicusExpr, asg: spec_fn(usize) -> int)
    ensures
        0 <= eval_expr(e, asg) < KOALA_BEAR_PRIME as int,
{
    let p = KOALA_BEAR_PRIME as int;
    match e {
        PicusExpr::Const(c) => lemma_mod_bound(c as int, p),
        PicusExpr::Var(v) => lemma_mod_bound(asg(v), p),
        PicusExpr::Add(a, b) => lemma_mod_bound(eval_expr(*a, asg) + eval_expr(*b, asg), p),
        PicusExpr::Sub(a, b) => lemma_mod_bound(eval_expr(*a, asg) - eval_expr(*b, asg), p),
        PicusExpr::Mul(a, b) => lemma_mod_bound(eval_expr(*a, asg) * eval_expr(*b, asg), p),
    }
}

/// Partially evaluates a constraint.
pub fn partial_evaluate_constraint(c: &PicusConstraint, env: &BTreeMap<usize, u64>) -> (r: PicusConstraint)
    ensures
        r == partial_eval_constraint(*c, env@),
    decreases c,
{
    match c {
        PicusConstraint::Lt(a, b) => PicusConstraint::Lt(
            Box::new(partial_evaluate_expr(a, env)),
            Box::new(partial_evaluate_expr(b, env)),
        ),
        PicusConstraint::Leq(a, b) => PicusConstraint::Leq(
            Box::new(partial_evaluate_expr(a, env)),
            Box::new(partial_evaluate_expr(b, env)),
        ),
        PicusConstraint::Eq(e) => PicusConstraint::Eq(Box::new(partial_evaluate_expr(e, env))),
        PicusConstraint::Implies(a, b) => PicusConstraint::Implies(
            Box::new(partial_evaluate_constraint(a, env)),
            Box::new(partial_evaluate_constraint(b, env)),
        ),
        PicusConstraint::Iff(a, b) => PicusConstraint::Iff(
            Box::new(partial_evaluate_constraint(a, env)),
            Box::new(partial_evaluate_constraint(b, env)),
        ),
        PicusConstraint::And(a, b) => PicusConstraint::And(
            Box::new(partial_evaluate_constraint(a, env)),
            Box::new(partial_evaluate_constraint(b, env)),
        ),
    }
}

fn partial_evaluate_exprs(es: &[PicusExpr], env: &BTreeMap<usize, u64>) -> (r: Vec<PicusExpr>)
    ensures
        r@ == partial_eval_all(es@, env@),
{
    let mut r: Vec<PicusExpr> = Vec::new();
    let mut i: usize = 0;
    while i < es.len()
        invariant
            i <= es@.len(),
            r@ == partial_eval_all(es@.subrange(0, i as int), env@),
        decreases es@.len() - i,
    {
        r.push(partial_evaluate_expr(&es[i], env));
        assert(partial_eval_all(es@.subrange(0, i + 1), env@) =~= partial_eval_all(es@.subrange(0, i as int), env@).push(
            partial_eval(es@[i as int], env@),
        ));
        i += 1;
    }
    assert(es@.subrange(0, es@.len() as int) =~= es@);
    r
}

fn partial_evaluate_constraints(cs: &[PicusConstraint], env: &BTreeMap<usize, u64>) -> (r: Vec<PicusConstraint>)
    ensures
        r@ == partial_eval_constraints(cs@, env@),
{
    let mut r: Vec<PicusConstraint> = Vec::new();
    let mut i: usize = 0;
    while i < cs.len()
        invariant
            i <= cs@.len(),
            r@ == partial_eval_constraints(cs@.subrange(0, i as int), env@),
        decreases cs@.len() - i,
    {
        r.push(partial_evaluate_constraint(&cs[i], env));
        assert(partial_eval_constraints(cs@.subrange(0, i + 1), env@) =~= partial_eval_constraints(
            cs@.subrange(0, i as int),
            env@,
        ).push(partial_eval_constraint(cs@[i as int], env@)));
        i += 1;
    }
    assert(cs@.subrange(0, cs@.len() as int) =~= cs@);
    r
}

impl PicusModule {
    /// The module with every expression partially evaluated under `env`.
    pub fn partial_eval(&self, env: &BTreeMap<usize, u64>) -> (m: PicusModule)
        ensures
            m@ == partial_eval_module(self@, env@),
    {
        let mut calls: Vec<PicusCall> = Vec::new();
        let mut i: usize = 0;
        while i < self.calls.len()
            invariant
                i <= self.calls@.len(),
                calls@.len() == i,
                forall|j: int| 0 <= j < i ==> (#[trigger] calls@[j])@ == partial_eval_call(self@.calls[j], env@),
            decreases self.calls@.len() - i,
        {
            let c = &self.calls[i];
            let pc = PicusCall {
                mod_name: c.mod_name.clone(),
                outputs: partial_evaluate_exprs(c.outputs.as_slice(), env),
                inputs: partial_evaluate_exprs(c.inputs.as_slice(), env),
            };
            assert(self@.calls[i as int] == self.calls@[i as int]@);
            assert(pc@ =~= partial_eval_call(self@.calls[i as int], env@));
            calls.push(pc);
            i += 1;
        }
        assert(calls@.map_values(|c: PicusCall| c@) =~= self@.calls.map_values(|c: CallView| partial_eval_call(c, env@)));
        let m = PicusModule {
            name: self.name.clone(),
            inputs: partial_evaluate_exprs(self.inputs.as_slice(), env),
            outputs: partial_evaluate_exprs(self.outputs.as_slice(), env),
            constraints: partial_evaluate_constraints(self.constraints.as_slice(), env),
            calls,
            postconditions: partial_evaluate_constraints(self.postconditions.as_slice(), env),
            assume_deterministic: partial_evaluate_exprs(self.assume_deterministic.as_slice(), env),
        };
        assert(m@ =~= partial_eval_module(self@, env@));
        m
    }

    /// Guards every equality constraint by the multiplicity `multiplier`.
    pub fn apply_multiplier(&mut self, multiplier: &PicusExpr)
        ensures
            final(self)@ == gate_module(old(self)@, *multiplier),
    {
        let mut constraints: Vec<PicusConstraint> = Vec::new();
        let mut i: usize = 0;
        while i < self.constraints.len()
            invariant
                i <= self.constraints@.len(),
                self@ == old(self)@,
                constraints@ == old(self)@.constraints.subrange(0, i as int).map_values(
                    |c: PicusConstraint| gate_constraint(c, *multiplier),
                ),
            decreases self.constraints@.len() - i,
        {
            let c = match &self.constraints[i] {
                PicusConstraint::Eq(e) => PicusConstraint::Eq(Box::new(PicusExpr::Mul(Box::new((**e).duplicate()), Box::new(multiplier.duplicate())))),
                other => other.duplicate(),
            };
            constraints.push(c);
            assert(constraints@ =~= old(self)@.constraints.subrange(0, i + 1).map_values(
                |c: PicusConstraint| gate_constraint(c, *multiplier),
            ));
            i += 1;
        }
        assert(old(self)@.constraints.subrange(0, old(self)@.constraints.len() as int) =~= old(self)@.constraints);
        self.constraints = constraints;
        assert(self@ =~= gate_module(old(self)@, *multiplier));
    }

    /// A copy of the module.
    pub fn duplicate(&self) -> (m: PicusModule)
        ensures
            m@ == self@,
    {
        let mut calls: Vec<PicusCall> = Vec::new();
        let mut i: usize = 0;
        while i < self.calls.len()
            invariant
                i <= self.calls@.len(),
                calls@.len() == i,
                forall|j: int| 0 <= j < i ==> (#[trigger] calls@[j])@ == self.calls@[j]@,
            decreases self.calls@.len() - i,
        {
            calls.push(self.calls[i].duplicate());
            i += 1;
        }
        assert(calls@.map_values(|c: PicusCall| c@) =~= self@.calls);
        let m = PicusModule {
            name: self.name.clone(),
            inputs: copy_exprs(self.inputs.as_slice()),
            outputs: copy_exprs(self.outputs.as_slice()),
            constraints: copy_constraints(self.constraints.as_slice()),
            calls,
            postconditions: copy_constraints(self.postconditions.as_slice()),
            assume_deterministic: copy_exprs(self.assume_deterministic.as_slice()),
        };
        assert(m@ =~= self@);
        m
    }
}

} // verus!
