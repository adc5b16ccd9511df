//! Lookup interactions exchanged between chips, and the byte-lookup opcodes.
use vstd::prelude::*;

verus! {

/// Modulus of the KoalaBear field in which trace values live.
pub const KOALA_BEAR_PRIME: u64 = 0x7f000001;

/// Number of byte limbs in a word.
pub const WORD_SIZE: usize = 4;

/// Operations of the byte lookup table.
#[derive(Clone, Copy, Debug, PartialEq, Eq, Structural)]
pub enum ByteOpcode {
    AND,
    OR,
    XOR,
    SLL,
    U8Range,
    ShrCarry,
    LTU,
    MSB,
    U16Range,
    NOR,
}

/// The number under which a byte opcode appears in lookup messages.
pub open spec fn byte_opcode_code(op: ByteOpcode) -> u64 {
    match op {
        ByteOpcode::AND => 0,
        ByteOpcode::OR => 1,
        ByteOpcode::XOR => 2,
        ByteOpcode::SLL => 3,
        ByteOpcode::U8Range => 4,
        ByteOpcode::ShrCarry => 5,
        ByteOpcode::LTU => 6,
        ByteOpcode::MSB => 7,
        ByteOpcode::U16Range => 8,
        ByteOpcode::NOR => 9,
    }
}

impl ByteOpcode {
    /// The number under which this opcode appears in lookup messages.
    pub fn code(&self) -> (c: u64)
        ensures
            c == byte_opcode_code(*self),
    {
        match self {
            ByteOpcode::AND => 0,
            ByteOpcode::OR => 1,
            ByteOpcode::XOR => 2,
            ByteOpcode::SLL => 3,
            ByteOpcode::U8Range => 4,
            ByteOpcode::ShrCarry => 5,
            ByteOpcode::LTU => 6,
            ByteOpcode::MSB => 7,
            ByteOpcode::U16Range => 8,
            ByteOpcode::NOR => 9,
        }
    }
}

/// The kind of a lookup interaction.
#[derive(Clone, Copy, Debug, PartialEq, Eq, Structural)]
pub enum LookupKind {
    Memory,
    Program,
    Instruction,
    Alu,
    Byte,
    Range,
    Field,
    Syscall,
    Global,
}

/// A lookup interaction: a message of values sent or received with a multiplicity.
#[derive(Debug, PartialEq, Eq)]
pub struct AirLookup<T> {
    pub values: Vec<T>,
    pub multiplicity: T,
    pub kind: LookupKind,
}

/// A byte lookup recorded while populating a trace: `a = op(b, c)`.
#[derive(Clone, Copy, Debug, PartialEq, Eq, Structural)]
pub struct ByteLookupEvent {
    pub opcode: ByteOpcode,
    pub a: u8,
    pub b: u8,
    pub c: u8,
}

/// The byte lookups requested while populating a trace, in order.
#[derive(Debug, PartialEq, Eq)]
pub struct ExecutionRecord {
    pub byte_lookups: Vec<ByteLookupEvent>,
}

impl ExecutionRecord {
    /// An empty record.
    pub fn new() -> (record: Self)
        ensures
            record.byte_lookups@ == Seq::<ByteLookupEvent>::empty(),
    {
        ExecutionRecord { byte_lookups: Vec::new() }
    }

    /// Records the byte lookup `b | c`.
    pub fn lookup_or(&mut self, b: u8, c: u8)
        ensures
            final(self).byte_lookups@ == old(self).byte_lookups@.push(
                ByteLookupEvent { opcode: ByteOpcode::OR, a: b | c, b, c },
            ),
    {
        self.byte_lookups.push(ByteLookupEvent { opcode: ByteOpcode::OR, a: b | c, b, c });
    }
}

} // verus!
