//! The columns and constraints computing the bitwise or of two words.
use vstd::prelude::*;
use crate::garble::le_bytes;
use crate::lookup::{AirLookup, ByteOpcode, ExecutionRecord, ByteLookupEvent, LookupKind, byte_opcode_code, WORD_SIZE};

verus! {

/// A word held as four byte limbs, least significant first; each limb is a
/// field element given by its canonical value.
#[derive(Clone, Copy, Debug, PartialEq, Eq)]
pub struct Word(pub [u32; 4]);

/// The limbs of a 32-bit value.
pub open spec fn word_limbs(x: u32) -> Seq<u32> {
    le_bytes(x).map_values(|b: u8| b as u32)
}

/// The value a sequence of four byte limbs stands for.
pub open spec fn limbs_value(limbs: Seq<u32>) -> int {
    limbs[0] + 256 * limbs[1] + 65536 * limbs[2] + 16777216 * limbs[3]
}

impl Word {
    /// The word whose limbs are the little-endian bytes of `x`.
    pub fn from_u32(x: u32) -> (w: Word)
        ensures
            w.0@ == word_limbs(x),
    {
        let w = Word([x & 0xff, (x >> 8) & 0xff, (x >> 16) & 0xff, (x >> 24) & 0xff]);
        proof {
            lemma_byte_limbs(x);
        }
        assert(w.0@ =~= word_limbs(x));
        w
    }
}

/// The limbs of `x` are its masked bytes.
pub proof fn lemma_byte_limbs(x: u32)
    ensures
        (((x & 0xff) as u8) as u32) == x & 0xff,
        ((((x >> 8) & 0xff) as u8) as u32) == (x >> 8) & 0xff,
        ((((x >> 16) & 0xff) as u8) as u32) == (x >> 16) & 0xff,
        ((((x >> 24) & 0xff) as u8) as u32) == (x >> 24) & 0xff,
        x & 0xff < 256,
        (x >> 8) & 0xff < 256,
        (x >> 16) & 0xff < 256,
        (x >> 24) & 0xff < 256,
{
    assert((((x & 0xff) as u8) as u32) == x & 0xff) by (bit_vector);
    assert(((((x >> 8) & 0xff) as u8) as u32) == (x >> 8) & 0xff) by (bit_vector);
    assert(((((x >> 16) & 0xff) as u8) as u32) == (x >> 16) & 0xff) by (bit_vector);
    assert(((((x >> 24) & 0xff) as u8) as u32) == (x >> 24) & 0xff) by (bit_vector);
    assert(x & 0xff < 256) by (bit_vector);
    assert((x >> 8) & 0xff < 256) by (bit_vector);
    assert((x >> 16) & 0xff < 256) by (bit_vector);
    assert((x >> 24) & 0xff < 256) by (bit_vector);
}

/// The or of two words, byte by byte, is the or of the words.
pub proof fn lemma_or_bytes(x: u32, y: u32)
    ensures
        forall|i: int| 0 <= i < 4 ==> #[trigger] le_bytes(x | y)[i] == le_bytes(x)[i] | le_bytes(y)[i],
{
    assert(((x | y) & 0xff) as u8 == ((x & 0xff) as u8) | ((y & 0xff) as u8)) by (bit_vector);
    assert((((x | y) >> 8) & 0xff) as u8 == (((x >> 8) & 0xff) as u8) | (((y >> 8) & 0xff) as u8)) by (bit_vector);
    assert((((x | y) >> 16) & 0xff) as u8 == (((x >> 16) & 0xff) as u8) | (((y >> 16) & 0xff) as u8)) by (bit_vector);
    assert((((x | y) >> 24) & 0xff) as u8 == (((x >> 24) & 0xff) as u8) | (((y >> 24) & 0xff) as u8)) by (bit_vector);
}

/// The limbs of a word recombine to the word.
pub proof fn lemma_word_limbs_value(x: u32)
    ensures
        limbs_value(word_limbs(x)) == x,
{
    let b0 = (x & 0xff) as u8;
    let b1 = ((x >> 8) & 0xff) as u8;
    let b2 = ((x >> 16) & 0xff) as u8;
    let b3 = ((x >> 24) & 0xff) as u8;
    assert(b0 as int + 256 * (b1 as int) + 65536 * (b2 as int) + 16777216 * (b3 as int) == x as int)
        by (bit_vector)
        requires
            b0 == (x & 0xff) as u8,
            b1 == ((x >> 8) & 0xff) as u8,
            b2 == ((x >> 16) & 0xff) as u8,
            b3 == ((x >> 24) & 0xff) as u8,
    ;
}

/// The byte lookups that populating the or of `x` and `y` requests.
pub open spec fn or_lookups(x: u32, y: u32) -> Seq<ByteLookupEvent> {
    Seq::new(
        4,
        |i: int|
            ByteLookupEvent {
                opcode: ByteOpcode::OR,
                a: le_bytes(x)[i] | le_bytes(y)[i],
                b: le_bytes(x)[i],
                c: le_bytes(y)[i],
            },
    )
}

/// The byte-lookup message `op(b, c) = a` sent with multiplicity `mult`: the
/// opcode, the result as a pair whose second half is zero, and the operands.
pub open spec fn byte_message_values(op: u32, a: u32, b: u32, c: u32) -> Seq<u32> {
    seq![op, a, 0, b, c]
}

/// A set of columns needed to compute the or of two words.
#[derive(Clone, Copy, Debug, PartialEq, Eq)]
pub struct OrOperation {
    /// The result of `x | y`.
    pub value: Word,
}

impl OrOperation {
    /// Columns holding zero.
    pub fn new() -> (op: Self)
        ensures
            op.value.0@ == seq![0u32, 0u32, 0u32, 0u32],
    {
        let op = OrOperation { value: Word([0, 0, 0, 0]) };
        assert(op.value.0@ =~= seq![0u32, 0u32, 0u32, 0u32]);
        op
    }

    /// Fills the columns with the bytes of `x | y`, requests one byte lookup
    /// per byte, and returns `x | y`.
    pub fn populate(&mut self, record: &mut ExecutionRecord, x: u32, y: u32) -> (expected: u32)
        ensures
            expected == x | y,
            final(self).value.0@ == word_limbs(x | y),
            final(record).byte_lookups@ == old(record).byte_lookups@ + or_lookups(x, y),
    {
        let expected = x | y;
        let x_bytes: [u8; 4] = [(x & 0xff) as u8, ((x >> 8) & 0xff) as u8, ((x >> 16) & 0xff) as u8, ((x >> 24) & 0xff) as u8];
        let y_bytes: [u8; 4] = [(y & 0xff) as u8, ((y >> 8) & 0xff) as u8, ((y >> 16) & 0xff) as u8, ((y >> 24) & 0xff) as u8];
        assert(x_bytes@ =~= le_bytes(x));
        assert(y_bytes@ =~= le_bytes(y));
        proof {
            lemma_or_bytes(x, y);
        }
        let ghost init = record.byte_lookups@;
        let mut limbs: [u32; 4] = [0, 0, 0, 0];
        let mut i: usize = 0;
        while i < WORD_SIZE
            invariant
                i <= 4,
                x_bytes@ == le_bytes(x),
                y_bytes@ == le_bytes(y),
                forall|j: int| 0 <= j < 4 ==> #[trigger] le_bytes(x | y)[j] == le_bytes(x)[j] | le_bytes(y)[j],
                forall|j: int| 0 <= j < i ==> #[trigger] limbs@[j] == word_limbs(x | y)[j],
                record.byte_lookups@ == init + or_lookups(x, y).subrange(0, i as int),
            decreases 4 - i,
        {
            limbs[i] = (x_bytes[i] | y_bytes[i]) as u32;
            record.lookup_or(x_bytes[i], y_bytes[i]);
            assert(or_lookups(x, y).subrange(0, i + 1) =~= or_lookups(x, y).subrange(0, i as int).push(
                or_lookups(x, y)[i as int],
            ));
            i += 1;
        }
        assert(limbs@ =~= word_limbs(x | y));
        assert(or_lookups(x, y).subrange(0, 4) =~= or_lookups(x, y));
        self.value = Word(limbs);
        expected
    }

    /// The byte lookups the or constraint sends: for each limb `i`,
    /// `OR(a[i], b[i]) = value[i]` with multiplicity `is_real`.
    pub fn eval(a: &Word, b: &Word, cols: &OrOperation, is_real: u32) -> (sends: Vec<AirLookup<u32>>)
        ensures
            sends@.len() == 4,
            forall|i: int|
                0 <= i < 4 ==> {
                    &&& (#[trigger] sends@[i]).values@ == byte_message_values(
                        byte_opcode_code(ByteOpcode::OR) as u32,
                        cols.value.0@[i],
                        a.0@[i],
                        b.0@[i],
                    )
                    &&& sends@[i].multiplicity == is_real
                    &&& sends@[i].kind == LookupKind::Byte
                },
    {
        let opcode = ByteOpcode::OR.code() as u32;
        let mut sends: Vec<AirLookup<u32>> = Vec::new();
        let mut i: usize = 0;
        while i < WORD_SIZE
            invariant
                i <= 4,
                opcode == byte_opcode_code(ByteOpcode::OR) as u32,
                sends@.len() == i,
                forall|j: int|
                    0 <= j < i ==> {
                        &&& (#[trigger] sends@[j]).values@ == byte_message_values(
                            opcode,
                            cols.value.0@[j],
                            a.0@[j],
                            b.0@[j],
                        )
                        &&& sends@[j].multiplicity == is_real
                        &&& sends@[j].kind == LookupKind::Byte
                    },
            decreases 4 - i,
        {
            let values = vec![opcode, cols.value.0[i], 0, a.0[i], b.0[i]];
            assert(values@ =~= byte_message_values(opcode, cols.value.0@[i as int], a.0@[i as int], b.0@[i as int]));
            sends.push(AirLookup { values, multiplicity: is_real, kind: LookupKind::Byte });
            i += 1;
        }
        sends
    }
}

} // verus!
