//! Run-time tests of the conditions under which an interaction can be turned
//! into Picus constructs.
use vstd::prelude::*;
use crate::lookup::{ByteOpcode, LookupKind};
use crate::pcl::PicusExpr;
use crate::picus_builder::{PicusBuilder, ChipDesc, OpcodeSpec, IndexSlice, SubmoduleMode, has_chip, first_chip_with_name, lemma_first_chip};
use crate::picus_bytes::{consts_below, byte_lookup_ok, and_127_applies, byte_fresh_count};
use crate::picus_ports::{receive_instruction_ok, memory_access_ok};
use crate::picus_calls::{
    call_ok, arg_ok, arg_slots, opcode_of, find_colrange, send_allowed,
    receive_allowed, lemma_arg_slots_nonneg,
};

verus! {

/// Whether every constant among `vals[from..]` is below `bound`.
pub fn consts_below_from(vals: &[PicusExpr], from: usize, bound: u64) -> (b: bool)
    requires
        from <= vals@.len(),
    ensures
        b == consts_below(vals@.subrange(from as int, vals@.len() as int), bound),
{
    let ghost s = vals@.subrange(from as int, vals@.len() as int);
    let mut i = from;
    while i < vals.len()
        invariant
            from <= i <= vals@.len(),
            s == vals@.subrange(from as int, vals@.len() as int),
            forall|j: int| 0 <= j < i - from ==> (#[trigger] s[j] matches PicusExpr::Const(c) ==> c < bound),
        decreases vals@.len() - i,
    {
        if let PicusExpr::Const(c) = &vals[i] {
            if *c >= bound {
                assert(s[i - from] == vals@[i as int]);
                return false;
            }
        }
        assert(s[i - from] == vals@[i as int]);
        i += 1;
    }
    true
}

/// Whether a byte lookup can be summarized.
pub fn byte_lookup_allowed(selector_module: bool, values: &[PicusExpr]) -> (b: bool)
    ensures
        b == byte_lookup_ok(selector_module, values@),
{
    if values.len() < 1 {
        return false;
    }
    match &values[0] {
        PicusExpr::Const(v) => {
            let v = *v;
            if v == ByteOpcode::U8Range.code() {
                consts_below_from(values, 1, 256)
            } else if v == ByteOpcode::U16Range.code() {
                consts_below_from(values, 1, 65536)
            } else if v == ByteOpcode::MSB.code() || v == ByteOpcode::ShrCarry.code() {
                values.len() >= 5
            } else if v == ByteOpcode::LTU.code() {
                values.len() >= 4
            } else if PicusBuilder::is_default_bitwise_byte_opcode(v) {
                if values.len() < 5 {
                    return false;
                }
                let and_127 = match (&values[0], &values[4]) {
                    (PicusExpr::Const(a), PicusExpr::Const(127)) => *a == ByteOpcode::AND.code(),
                    _ => false,
                };
                assert(and_127 == and_127_applies(values@));
                and_127 || values.len() == 5
            } else {
                true
            }
        },
        _ => selector_module,
    }
}

/// The number of fresh variables a summarizable byte lookup takes.
pub fn byte_fresh_vars(values: &[PicusExpr]) -> (n: usize)
    requires
        byte_lookup_ok(true, values@),
    ensures
        n == byte_fresh_count(values@),
{
    match &values[0] {
        PicusExpr::Const(v) => {
            if *v == ByteOpcode::MSB.code() {
                let hi: usize = match &values[3] {
                    PicusExpr::Const(0) => 0,
                    _ => 1,
                };
                let lo: usize = match &values[4] {
                    PicusExpr::Const(0) => 0,
                    _ => 1,
                };
                hi + lo
            } else if *v == ByteOpcode::AND.code() {
                match &values[4] {
                    PicusExpr::Const(127) => 1,
                    _ => 0,
                }
            } else {
                0
            }
        },
        _ => 0,
    }
}

/// Whether an active memory access can be summarized with the fresh
/// variables left after `fresh`.
pub fn memory_access_allowed(fresh: usize, values: &[PicusExpr]) -> (b: bool)
    ensures
        b == memory_access_ok(fresh as int, values@),
{
    values.len() >= 4 && fresh <= usize::MAX - (values.len() - 2)
}

/// Whether a received instruction can be summarized.
pub fn receive_instruction_allowed(m: &PicusExpr, values: &[PicusExpr]) -> (b: bool)
    ensures
        b == receive_instruction_ok(*m, values@),
{
    if let PicusExpr::Const(0) = m {
        return true;
    }
    if values.len() < 25 {
        return false;
    }
    let pc_ok = match &values[2] {
        PicusExpr::Const(_) | PicusExpr::Var(_) => true,
        _ => false,
    };
    let a_ok = match &values[23] {
        PicusExpr::Const(0) | PicusExpr::Const(1) => true,
        _ => false,
    };
    let rw_ok = match &values[24] {
        PicusExpr::Const(0) | PicusExpr::Const(1) => true,
        _ => false,
    };
    pc_ok && a_ok && rw_ok
}

/// Whether the chip named `name` exists.
pub fn chip_exists(chips: &[ChipDesc], name: &String) -> (b: bool)
    ensures
        b == has_chip(chips@, name@),
{
    let mut i: usize = 0;
    while i < chips.len()
        invariant
            i <= chips@.len(),
            forall|j: int| 0 <= j < i ==> chips@[j].name@ != name@,
        decreases chips@.len() - i,
    {
        if chips[i].name == *name {
            return true;
        }
        i += 1;
    }
    false
}

/// The first chip named `name`.
pub fn find_chip<'a>(chips: &'a [ChipDesc], name: &String) -> (r: Option<&'a ChipDesc>)
    ensures
        r is Some <==> has_chip(chips@, name@),
        r matches Some(c) ==> *c == chips@[first_chip_with_name(chips@, name@)],
{
    proof {
        lemma_first_chip(chips@, name@);
    }
    let mut i: usize = 0;
    while i < chips.len()
        invariant
            i <= chips@.len(),
            forall|j: int| 0 <= j < i ==> chips@[j].name@ != name@,
        decreases chips@.len() - i,
    {
        if chips[i].name == *name {
            proof {
                lemma_first_chip(chips@, name@);
            }
            return Some(&chips[i]);
        }
        i += 1;
    }
    None
}

/// Whether one argument can be placed.
fn arg_allowed(values: &[PicusExpr], arg: &(IndexSlice, String), entries: &[(String, (usize, usize))], width: usize) -> (b: bool)
    ensures
        b == arg_ok(values@, *arg, entries@, width as int),
{
    let r = match find_colrange(entries, &arg.1) {
        Some(r) => r,
        None => {
            return false;
        },
    };
    if r.0 > r.1 {
        return false;
    }
    match arg.0 {
        IndexSlice::Range { start, end } => start <= end && end <= values.len() && r.1 - r.0 >= end - start && r.0 <= width
            && end - start <= width - r.0,
        IndexSlice::Single(col) => r.1 - r.0 == 1 && col < values.len() && r.0 < width,
    }
}

/// Whether an instruction lookup can be routed and its call row built.
pub fn call_allowed(chips: &[ChipDesc], specs: &[OpcodeSpec], fresh: usize, values: &[PicusExpr]) -> (b: bool)
    ensures
        b == call_ok(chips@, specs@, fresh as int, values@),
{
    if values.len() <= 6 {
        return false;
    }
    let opcode = match &values[6] {
        PicusExpr::Const(v) => *v,
        _ => {
            return false;
        },
    };
    if opcode >= specs.len() as u64 {
        return false;
    }
    let spec = &specs[opcode as usize];
    assert(opcode_of(values@) == opcode);
    assert(*spec == specs@[opcode as int]);
    let target = match find_chip(chips, &spec.chip) {
        Some(c) => c,
        None => {
            return false;
        },
    };
    let ghost args = spec.arg_to_colname@;
    let mut total: usize = match fresh.checked_add(target.width) {
        Some(t) => t,
        None => {
            proof {
                lemma_arg_slots_nonneg(args);
            }
            return false;
        },
    };
    let mut k: usize = 0;
    assert(args.subrange(0, 0) =~= Seq::<(IndexSlice, String)>::empty());
    while k < spec.arg_to_colname.len()
        invariant
            k <= args.len(),
            args == spec.arg_to_colname@,
            values@.len() > 6,
            values@[6] is Const,
            opcode_of(values@) < specs@.len(),
            *spec == specs@[opcode_of(values@) as int],
            has_chip(chips@, spec.chip@),
            *target == chips@[first_chip_with_name(chips@, spec.chip@)],
            total == fresh + target.width + arg_slots(args.subrange(0, k as int)),
            forall|kk: int| 0 <= kk < k ==> #[trigger] arg_ok(
                values@,
                args[kk],
                target.picus_info.name_to_colrange@,
                target.width as int,
            ),
        decreases args.len() - k,
    {
        assert(args.subrange(0, k + 1).drop_last() =~= args.subrange(0, k as int));
        assert(args.subrange(0, k + 1).last() == args[k as int]);
        if !arg_allowed(values, &spec.arg_to_colname[k], target.picus_info.name_to_colrange.as_slice(), target.width) {
            assert(!arg_ok(values@, args[k as int], target.picus_info.name_to_colrange@, target.width as int));
            assert(!call_ok(chips@, specs@, fresh as int, values@));
            return false;
        }
        let slots: usize = match spec.arg_to_colname[k].0 {
            IndexSlice::Range { start, end } => if start <= end { end - start } else { 0 },
            IndexSlice::Single(_) => 1,
        };
        total = match total.checked_add(slots) {
            Some(t) => t,
            None => {
                proof {
                    crate::picus_calls::lemma_arg_slots_prefix(args, k as int);
                }
                assert(!call_ok(chips@, specs@, fresh as int, values@));
                return false;
            },
        };
        k += 1;
    }
    assert(args.subrange(0, args.len() as int) =~= args);
    true
}

impl<'chips> PicusBuilder<'chips> {
    /// Whether the lookup can be sent in the current state.
    pub fn send_allowed_now(&self, kind: LookupKind, values: &[PicusExpr], m: &PicusExpr) -> (b: bool)
        ensures
            b == send_allowed(self.config(), self.state(), kind, values@, *m),
    {
        let sv = self.specialize_values(values);
        let sm = self.specialize_expr(m);
        match kind {
            LookupKind::Byte => byte_lookup_allowed(self.submodule_mode == SubmoduleMode::Ignore, sv.as_slice())
                && self.fresh_var_ctr <= usize::MAX - byte_fresh_vars(sv.as_slice()),
            LookupKind::Memory => match sm {
                PicusExpr::Const(0) => true,
                _ => memory_access_allowed(self.fresh_var_ctr, sv.as_slice()),
            },
            LookupKind::Instruction => self.submodule_mode == SubmoduleMode::Ignore || call_allowed(
                self.chips,
                self.opcode_specs,
                self.fresh_var_ctr,
                sv.as_slice(),
            ),
            _ => false,
        }
    }

    /// Whether the lookup can be received in the current state.
    pub fn receive_allowed_now(&self, kind: LookupKind, values: &[PicusExpr], m: &PicusExpr) -> (b: bool)
        ensures
            b == receive_allowed(self.config(), self.state(), kind, values@, *m),
    {
        let sv = self.specialize_values(values);
        let sm = self.specialize_expr(m);
        match kind {
            LookupKind::Instruction => if self.submodule_mode == SubmoduleMode::Ignore {
                sv.len() > 6
            } else {
                let headroom = match sm {
                    PicusExpr::Const(0) => true,
                    _ => self.fresh_var_ctr <= usize::MAX - 18,
                };
                receive_instruction_allowed(&sm, sv.as_slice()) && headroom
            },
            LookupKind::Memory => match sm {
                PicusExpr::Const(0) => true,
                _ => memory_access_allowed(self.fresh_var_ctr, sv.as_slice()),
            },
            _ => false,
        }
    }
}

} // verus!
