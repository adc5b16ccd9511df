//! Boolean-circuit garbling check.
//!
//! The guest splits a garbled circuit into chunks and hands each chunk to a
//! syscall; the syscall recomputes each gate's ciphertext from its labels and
//! the global offset `delta` and compares it with the expected ciphertext.
use vstd::prelude::*;
use vstd::arithmetic::div_mod::*;

verus! {

/// Words describing one gate in the syscall's memory layout: its type,
/// `h0`, `h1`, `label_b` and the expected ciphertext (four words each).
pub const GATE_INFO_WORDS: usize = 17;

/// Bytes describing one gate in the guest's byte layout.
pub const GATE_INFO_BYTES: usize = 68;

/// Largest number of gates handed to one syscall.
pub const MAX_GATES_PER_SYSCALL: usize = 62500;

// ---------------------------------------------------------------------------
// Word-level model of a gate
// ---------------------------------------------------------------------------

/// Word `j` of the ciphertext recomputed from a gate's labels.
/// Gate type 0 combines `h0 ^ h1 ^ label_b`; any other type also folds in `delta`.
pub open spec fn gate_cipher_word(gate: Seq<u32>, delta: Seq<u32>, j: int) -> u32 {
    if gate[0] == 0 {
        gate[1 + j] ^ gate[5 + j] ^ gate[9 + j]
    } else {
        gate[1 + j] ^ gate[5 + j] ^ gate[9 + j] ^ delta[j]
    }
}

/// A gate is consistent when all four recomputed words equal the expected ciphertext.
pub open spec fn gate_ok(gate: Seq<u32>, delta: Seq<u32>) -> bool {
    forall|j: int| 0 <= j < 4 ==> #[trigger] gate_cipher_word(gate, delta, j) == gate[13 + j]
}

/// The words of gate `g` in a sequence of gate descriptions.
pub open spec fn gate_at(gates: Seq<u32>, g: int) -> Seq<u32> {
    gates.subrange(17 * g, 17 * g + 17)
}

/// Every one of the first `n` gates is consistent.
pub open spec fn all_gates_ok(gates: Seq<u32>, delta: Seq<u32>, n: int) -> bool {
    forall|g: int| 0 <= g < n ==> gate_ok(#[trigger] gate_at(gates, g), delta)
}

/// Checks one gate whose words start at `base`.
fn gate_matches(gates_info: &[u32], base: usize, delta: &[u32; 4]) -> (ok: bool)
    requires
        base + 17 <= gates_info@.len(),
    ensures
        ok == gate_ok(gates_info@.subrange(base as int, base + 17), delta@),
{
    let ghost gate = gates_info@.subrange(base as int, base + 17);
    let gate_type = gates_info[base];
    let mut ok = true;
    let mut j: usize = 0;
    while j < 4
        invariant
            j <= 4,
            base + 17 <= gates_info.len(),
            gate == gates_info@.subrange(base as int, base + 17),
            gate_type == gate[0],
            ok == (forall|jj: int| 0 <= jj < j ==> #[trigger] gate_cipher_word(gate, delta@, jj) == gate[13 + jj]),
        decreases 4 - j,
    {
        let word = if gate_type == 0 {
            gates_info[base + 1 + j] ^ gates_info[base + 5 + j] ^ gates_info[base + 9 + j]
        } else {
            gates_info[base + 1 + j] ^ gates_info[base + 5 + j] ^ gates_info[base + 9 + j] ^ delta[j]
        };
        assert(word == gate_cipher_word(gate, delta@, j as int));
        ok = ok && word == gates_info[base + 13 + j];
        j += 1;
    }
    ok
}

/// Checks every gate of a circuit chunk: `gates_info` holds `num_gates` gate
/// descriptions of 17 words each. Returns whether all of them are consistent.
pub fn check_garbled_gates(num_gates: u32, delta: &[u32; 4], gates_info: &[u32]) -> (ok: bool)
    requires
        gates_info@.len() == 17 * num_gates,
    ensures
        ok == all_gates_ok(gates_info@, delta@, num_gates as int),
{
    let mut result = true;
    let mut i: u32 = 0;
    while i < num_gates
        invariant
            i <= num_gates,
            gates_info.len() == 17 * num_gates,
            result == all_gates_ok(gates_info@, delta@, i as int),
        decreases num_gates - i,
    {
        assert(17 * (i as int) + 17 <= gates_info.len());
        let base = i as usize * GATE_INFO_WORDS;
        let checked = gate_matches(gates_info, base, delta);
        assert(gate_at(gates_info@, i as int) == gates_info@.subrange(base as int, base + 17));
        proof {
            if result && checked {
                assert forall|g: int| 0 <= g < i + 1 implies gate_ok(#[trigger] gate_at(gates_info@, g), delta@) by {
                    if g < i {
                        assert(all_gates_ok(gates_info@, delta@, i as int));
                    }
                }
            }
            if !checked {
                assert(!gate_ok(gate_at(gates_info@, i as int), delta@));
            }
        }
        result = result && checked;
        i += 1;
    }
    result
}

/// Where the syscall reads its inputs: the number of gates sits at the input
/// pointer, followed by the four `delta` words and then the gates' words.
pub struct GarbleReads {
    pub num_gates_addr: u32,
    pub delta_addr: u32,
    pub gates_addr: u32,
    pub gates_len: usize,
}

/// The memory reads of the garbling syscall, given the input pointer and the
/// number of gates read from it.
pub fn garble_reads(input_ptr: u32, num_gates: u32) -> (reads: GarbleReads)
    requires
        input_ptr + 20 <= u32::MAX,
        17 * num_gates <= u32::MAX,
    ensures
        reads.num_gates_addr == input_ptr,
        reads.delta_addr == input_ptr + 4,
        reads.gates_addr == input_ptr + 20,
        reads.gates_len == 17 * num_gates,
{
    let gate_input_size = GATE_INFO_WORDS as u32 * num_gates;
    GarbleReads {
        num_gates_addr: input_ptr,
        delta_addr: input_ptr + 4,
        gates_addr: input_ptr + 20,
        gates_len: gate_input_size as usize,
    }
}

/// The word the syscall writes to its output pointer: 1 when every gate is
/// consistent, 0 otherwise.
pub fn garble_syscall_output(num_gates: u32, delta: &[u32; 4], gates_info: &[u32]) -> (out: u32)
    requires
        gates_info@.len() == 17 * num_gates,
    ensures
        out == (if all_gates_ok(gates_info@, delta@, num_gates as int) { 1u32 } else { 0u32 }),
{
    if check_garbled_gates(num_gates, delta, gates_info) {
        1
    } else {
        0
    }
}

// ---------------------------------------------------------------------------
// Byte layout shared by guest and syscall
// ---------------------------------------------------------------------------

/// The little-endian word made of four bytes.
pub open spec fn le_word(b0: u8, b1: u8, b2: u8, b3: u8) -> u32 {
    (b0 as int + 256 * (b1 as int) + 65536 * (b2 as int) + 16777216 * (b3 as int)) as u32
}

/// Memory read as little-endian words (trailing bytes that do not fill a word are ignored).
pub open spec fn le_words(bytes: Seq<u8>) -> Seq<u32> {
    Seq::new(
        bytes.len() / 4,
        |i: int| le_word(bytes[4 * i], bytes[4 * i + 1], bytes[4 * i + 2], bytes[4 * i + 3]),
    )
}

/// The four little-endian bytes of a word.
pub open spec fn le_bytes(x: u32) -> Seq<u8> {
    seq![(x & 0xff) as u8, ((x >> 8) & 0xff) as u8, ((x >> 16) & 0xff) as u8, ((x >> 24) & 0xff) as u8]
}

/// What the syscall reports for an input region: word 0 is the number of
/// gates, words 1..5 are `delta`, and the gates' words follow.
pub open spec fn syscall_accepts(input: Seq<u8>) -> bool {
    let w = le_words(input);
    &&& w.len() >= 5
    &&& 5 + 17 * (w[0] as int) <= w.len()
    &&& all_gates_ok(w.subrange(5, 5 + 17 * (w[0] as int)), w.subrange(1, 5), w[0] as int)
}

// ---------------------------------------------------------------------------
// Guest-side chunking
// ---------------------------------------------------------------------------

/// A well-formed circuit description: 16 bytes of `delta` followed by at least
/// one gate of 68 bytes.
pub open spec fn valid_circuit_len(len: int) -> bool {
    len % 68 == 16 && len >= 84
}

/// Number of gates in a circuit description of `len` bytes.
pub open spec fn circuit_num_gates(len: int) -> int {
    len / 68
}

/// Number of syscalls needed for `n` gates.
pub open spec fn num_syscalls(n: int) -> int {
    (n - 1) / 62500 + 1
}

/// Number of gates in chunk `k`: full chunks, then the remainder.
pub open spec fn chunk_gate_count(n: int, k: int) -> int {
    if k < num_syscalls(n) - 1 {
        62500
    } else {
        n - 62500 * (num_syscalls(n) - 1)
    }
}

/// Byte offset of chunk `k`'s first gate in the circuit description.
pub open spec fn chunk_start(k: int) -> int {
    16 + 4250000 * k
}

/// The syscall input for chunk `k`: its number of gates, `delta`, then its gates.
pub open spec fn chunk_input(circuit: Seq<u8>, k: int) -> Seq<u8> {
    let c = chunk_gate_count(circuit_num_gates(circuit.len() as int), k);
    le_bytes(c as u32) + circuit.subrange(0, 16) + circuit.subrange(chunk_start(k), chunk_start(k) + 68 * c)
}

/// The circuit as a whole is consistent.
pub open spec fn circuit_ok(circuit: Seq<u8>) -> bool {
    let w = le_words(circuit);
    let n = circuit_num_gates(circuit.len() as int);
    all_gates_ok(w.subrange(4, 4 + 17 * n), w.subrange(0, 4), n)
}

/// Facts on the chunk counts.
pub proof fn lemma_chunk_counts(n: int)
    requires
        n >= 1,
    ensures
        num_syscalls(n) >= 1,
        62500 * (num_syscalls(n) - 1) <= n - 1,
        1 <= chunk_gate_count(n, num_syscalls(n) - 1) <= 62500,
        forall|k: int| 0 <= k < num_syscalls(n) ==> 1 <= #[trigger] chunk_gate_count(n, k) <= 62500,
        forall|k: int| 0 <= k < num_syscalls(n) ==> 62500 * k + #[trigger] chunk_gate_count(n, k) <= n,
{
    let q = (n - 1) / 62500;
    lemma_fundamental_div_mod(n - 1, 62500);
    lemma_mod_bound(n - 1, 62500);
    assert(62500 * q <= n - 1);
    assert(n - 1 < 62500 * q + 62500);
    assert forall|k: int| 0 <= k < num_syscalls(n) implies 62500 * k + #[trigger] chunk_gate_count(n, k) <= n by {
        if k < num_syscalls(n) - 1 {
            assert(62500 * k + 62500 <= 62500 * q);
        }
    }
}

/// `le_words` of a concatenation whose first part fills whole words.
pub proof fn lemma_le_words_concat(a: Seq<u8>, b: Seq<u8>)
    requires
        a.len() % 4 == 0,
    ensures
        le_words(a + b) =~= le_words(a) + le_words(b),
{
    let ab = a + b;
    assert(ab.len() / 4 == a.len() / 4 + b.len() / 4) by {
        lemma_fundamental_div_mod(a.len() as int, 4);
        lemma_fundamental_div_mod(b.len() as int, 4);
        lemma_fundamental_div_mod(ab.len() as int, 4);
        lemma_mod_bound(b.len() as int, 4);
        lemma_mod_bound(ab.len() as int, 4);
    }
    assert forall|i: int| 0 <= i < le_words(ab).len() implies le_words(ab)[i] == (le_words(a) + le_words(b))[i] by {
        if i < a.len() / 4 {
            assert(4 * i + 3 < a.len()) by {
                lemma_fundamental_div_mod(a.len() as int, 4);
            }
        } else {
            let i2 = i - a.len() / 4;
            assert(4 * i == a.len() + 4 * i2) by {
                lemma_fundamental_div_mod(a.len() as int, 4);
            }
            assert(4 * i2 + 3 < b.len()) by {
                lemma_fundamental_div_mod(b.len() as int, 4);
            }
        }
    }
}

/// `le_words` of a word-aligned slice.
pub proof fn lemma_le_words_subrange(b: Seq<u8>, p: int, q: int)
    requires
        0 <= p <= q,
        4 * q <= b.len(),
    ensures
        le_words(b.subrange(4 * p, 4 * q)) =~= le_words(b).subrange(p, q),
{
    let s = b.subrange(4 * p, 4 * q);
    assert(s.len() / 4 == q - p);
    assert(le_words(b).len() == b.len() / 4);
    assert(q <= b.len() / 4) by {
        lemma_fundamental_div_mod(b.len() as int, 4);
        lemma_mod_bound(b.len() as int, 4);
    }
}

/// Reading back the little-endian bytes of a word gives the word.
pub proof fn lemma_le_bytes_word(x: u32)
    ensures
        le_words(le_bytes(x)) =~= seq![x],
{
    let b0 = (x & 0xff) as u8;
    let b1 = ((x >> 8) & 0xff) as u8;
    let b2 = ((x >> 16) & 0xff) as u8;
    let b3 = ((x >> 24) & 0xff) as u8;
    assert(b0 as int + 256 * (b1 as int) + 65536 * (b2 as int) + 16777216 * (b3 as int) == x as int)
        by (bit_vector)
        requires
            b0 == (x & 0xff) as u8,
            b1 == ((x >> 8) & 0xff) as u8,
            b2 == ((x >> 16) & 0xff) as u8,
            b3 == ((x >> 24) & 0xff) as u8,
    ;
    assert(le_bytes(x).len() == 4);
    assert(le_words(le_bytes(x))[0] == le_word(b0, b1, b2, b3));
}

/// The words the syscall reads for chunk `k`.
pub proof fn lemma_chunk_words(circuit: Seq<u8>, k: int)
    requires
        valid_circuit_len(circuit.len() as int),
        0 <= k < num_syscalls(circuit_num_gates(circuit.len() as int)),
    ensures
        ({
            let n = circuit_num_gates(circuit.len() as int);
            let c = chunk_gate_count(n, k);
            let w = le_words(circuit);
            let a = 4 + 1062500 * k;
            le_words(chunk_input(circuit, k)) =~= seq![c as u32] + w.subrange(0, 4) + w.subrange(a, a + 17 * c)
        }),
{
    let len = circuit.len() as int;
    let n = circuit_num_gates(len);
    lemma_fundamental_div_mod(len, 68);
    assert(len == 68 * n + 16);
    lemma_chunk_counts(n);
    let c = chunk_gate_count(n, k);
    let a = 4 + 1062500 * k;
    let head = le_bytes(c as u32);
    let d = circuit.subrange(0, 16);
    let g = circuit.subrange(chunk_start(k), chunk_start(k) + 68 * c);
    assert(chunk_start(k) + 68 * c <= len);
    assert(d =~= circuit.subrange(4 * 0int, 4 * 4int));
    assert(g =~= circuit.subrange(4 * a, 4 * (a + 17 * c)));
    lemma_le_words_subrange(circuit, 0, 4);
    lemma_le_words_subrange(circuit, a, a + 17 * c);
    lemma_le_words_concat(head, d);
    lemma_le_words_concat(head + d, g);
    lemma_le_bytes_word(c as u32);
}

/// The chunks cover the circuit: every chunk is accepted exactly when the
/// whole circuit is consistent.
pub proof fn lemma_chunks_cover_circuit(circuit: Seq<u8>)
    requires
        valid_circuit_len(circuit.len() as int),
    ensures
        (forall|k: int|
            0 <= k < num_syscalls(circuit_num_gates(circuit.len() as int))
                ==> #[trigger] syscall_accepts(chunk_input(circuit, k))) <==> circuit_ok(circuit),
{
    let len = circuit.len() as int;
    let n = circuit_num_gates(len);
    let s = num_syscalls(n);
    lemma_fundamental_div_mod(len, 68);
    assert(len == 68 * n + 16);
    lemma_chunk_counts(n);
    let w = le_words(circuit);
    assert(w.len() == 4 + 17 * n);
    let whole = w.subrange(4, 4 + 17 * n);
    let delta = w.subrange(0, 4);

    // Gate `g` of chunk `k` is gate `62500 * k + g` of the circuit.
    assert forall|k: int, g: int|
        0 <= k < s && 0 <= g < chunk_gate_count(n, k) implies
            #[trigger] gate_at(w.subrange(4 + 1062500 * k, 4 + 1062500 * k + 17 * chunk_gate_count(n, k)), g)
                =~= gate_at(whole, 62500 * k + g) by {
        assert(62500 * k + g < n);
    }

    if circuit_ok(circuit) {
        assert forall|k: int| 0 <= k < s implies #[trigger] syscall_accepts(chunk_input(circuit, k)) by {
            lemma_chunk_words(circuit, k);
            let c = chunk_gate_count(n, k);
            let a = 4 + 1062500 * k;
            let cw = le_words(chunk_input(circuit, k));
            assert(cw[0] == c as u32);
            assert(cw.subrange(1, 5) =~= delta);
            assert(cw.subrange(5, 5 + 17 * c) =~= w.subrange(a, a + 17 * c));
            assert forall|g: int| 0 <= g < c implies gate_ok(#[trigger] gate_at(w.subrange(a, a + 17 * c), g), delta) by {
                assert(gate_at(w.subrange(a, a + 17 * c), g) =~= gate_at(whole, 62500 * k + g));
                assert(gate_ok(gate_at(whole, 62500 * k + g), delta));
            }
        }
    }
    if forall|k: int| 0 <= k < s ==> #[trigger] syscall_accepts(chunk_input(circuit, k)) {
        assert forall|gg: int| 0 <= gg < n implies gate_ok(#[trigger] gate_at(whole, gg), delta) by {
            let k = gg / 62500;
            let g = gg % 62500;
            lemma_fundamental_div_mod(gg, 62500);
            lemma_mod_bound(gg, 62500);
            assert(gg == 62500 * k + g);
            assert(k <= (n - 1) / 62500) by {
                lemma_div_is_ordered(gg, n - 1, 62500);
            }
            assert(0 <= k) by {
                lemma_div_pos_is_pos(gg, 62500);
            }
            let c = chunk_gate_count(n, k);
            assert(g < c);
            assert(syscall_accepts(chunk_input(circuit, k)));
            lemma_chunk_words(circuit, k);
            let a = 4 + 1062500 * k;
            let cw = le_words(chunk_input(circuit, k));
            assert(cw[0] == c as u32);
            assert(cw.subrange(1, 5) =~= delta);
            assert(cw.subrange(5, 5 + 17 * c) =~= w.subrange(a, a + 17 * c));
            assert(gate_ok(gate_at(w.subrange(a, a + 17 * c), g), delta));
            assert(gate_at(w.subrange(a, a + 17 * c), g) =~= gate_at(whole, gg));
        }
    }
}

// ---------------------------------------------------------------------------
// Guest-side driver
// ---------------------------------------------------------------------------

/// Appends the little-endian bytes of `x`.
fn push_le_bytes(out: &mut Vec<u8>, x: u32)
    ensures
        final(out)@ == old(out)@ + le_bytes(x),
{
    out.push((x & 0xff) as u8);
    out.push(((x >> 8) & 0xff) as u8);
    out.push(((x >> 16) & 0xff) as u8);
    out.push(((x >> 24) & 0xff) as u8);
}

/// Appends `src[start..end]`.
fn push_slice(out: &mut Vec<u8>, src: &[u8], start: usize, end: usize)
    requires
        start <= end <= src@.len(),
    ensures
        final(out)@ == old(out)@ + src@.subrange(start as int, end as int),
{
    let ghost init = out@;
    let mut i = start;
    while i < end
        invariant
            start <= i <= end,
            end <= src@.len(),
            out@ == init + src@.subrange(start as int, i as int),
        decreases end - i,
    {
        out.push(src[i]);
        assert(src@.subrange(start as int, i + 1) =~= src@.subrange(start as int, i as int).push(src@[i as int]));
        i += 1;
    }
}

/// Progress of the guest through the syscalls of one circuit check.
///
/// The guest hands the circuit to the syscall chunk by chunk and stops at the
/// first chunk the syscall rejects.
pub struct GarbleSession {
    /// Number of gates in the circuit.
    pub num_gates: usize,
    /// Number of syscalls the circuit needs.
    pub num_syscalls: usize,
    /// The chunk whose syscall comes next.
    pub next_chunk: usize,
}

impl GarbleSession {
    /// The session is set up for a circuit of `len` bytes.
    pub open spec fn for_circuit(&self, len: int) -> bool {
        &&& valid_circuit_len(len)
        &&& self.num_gates == circuit_num_gates(len)
        &&& self.num_syscalls == num_syscalls(self.num_gates as int)
        &&& self.next_chunk < self.num_syscalls
    }

    /// Starts checking the circuit `gates_info`: 16 bytes of `delta` followed
    /// by 68 bytes per gate, with at least one gate.
    ///
    /// The guest is a 32-bit program: there, each chunk's gate count is a
    /// 4-byte `usize` copied into the first word of the chunk's input, and on
    /// a target with a wider `usize` that copy would fail. This session
    /// deliberately departs from that restriction: it writes the count as a
    /// 4-byte little-endian word on any target, which is the guest's layout,
    /// and a chunk holds at most 62500 gates, so the count always fits.
    pub fn new(gates_info: &[u8]) -> (session: Self)
        requires
            valid_circuit_len(gates_info@.len() as int),
        ensures
            session.for_circuit(gates_info@.len() as int),
            session.next_chunk == 0,
    {
        let num_gates = gates_info.len() / GATE_INFO_BYTES;
        proof {
            lemma_fundamental_div_mod(gates_info@.len() as int, 68);
        }
        let syscall_num = (num_gates - 1) / MAX_GATES_PER_SYSCALL + 1;
        GarbleSession { num_gates, num_syscalls: syscall_num, next_chunk: 0 }
    }

    /// The syscall input for the next chunk: its number of gates, `delta`,
    /// and the chunk's gates.
    pub fn next_input(&self, gates_info: &[u8]) -> (input: Vec<u8>)
        requires
            self.for_circuit(gates_info@.len() as int),
        ensures
            input@ == chunk_input(gates_info@, self.next_chunk as int),
    {
        let len = gates_info.len();
        proof {
            lemma_fundamental_div_mod(len as int, 68);
            lemma_chunk_counts(self.num_gates as int);
        }
        let k = self.next_chunk;
        let count = if k < self.num_syscalls - 1 {
            MAX_GATES_PER_SYSCALL
        } else {
            self.num_gates - MAX_GATES_PER_SYSCALL * (self.num_syscalls - 1)
        };
        assert(count == chunk_gate_count(self.num_gates as int, k as int));
        assert(MAX_GATES_PER_SYSCALL * k + count <= self.num_gates);
        assert(68 * (self.num_gates as int) + 16 == len);
        assert(4250000 * (k as int) + 68 * (count as int) + 16 <= len);
        let start_offset = 16 + MAX_GATES_PER_SYSCALL * GATE_INFO_BYTES * k;
        let end_offset = start_offset + count * GATE_INFO_BYTES;
        let mut input: Vec<u8> = Vec::new();
        push_le_bytes(&mut input, count as u32);
        push_slice(&mut input, gates_info, 0, 16);
        push_slice(&mut input, gates_info, start_offset, end_offset);
        input
    }

    /// Takes the syscall's answer for the current chunk (0 or 1). Returns the
    /// verdict once it is known: `Some(false)` at the first rejected chunk,
    /// `Some(true)` after the last chunk is accepted, `None` while chunks remain.
    pub fn record_output(&mut self, output: u32) -> (verdict: Option<bool>)
        requires
            output <= 1,
            old(self).next_chunk < old(self).num_syscalls,
        ensures
            output == 0 ==> verdict == Some(false) && *final(self) == *old(self),
            output == 1 && old(self).next_chunk + 1 == old(self).num_syscalls ==> verdict == Some(true)
                && *final(self) == *old(self),
            output == 1 && old(self).next_chunk + 1 < old(self).num_syscalls ==> verdict is None
                && final(self).next_chunk == old(self).next_chunk + 1
                && final(self).num_gates == old(self).num_gates
                && final(self).num_syscalls == old(self).num_syscalls,
    {
        if output == 0 {
            Some(false)
        } else if self.next_chunk + 1 == self.num_syscalls {
            Some(true)
        } else {
            self.next_chunk = self.next_chunk + 1;
            None
        }
    }
}

/// The guest's verdict when the syscall answers `outputs[k]` for chunk `k`:
/// true exactly when every chunk is accepted.
pub open spec fn chunked_verdict(outputs: Seq<u32>, num_chunks: int) -> bool {
    forall|k: int| 0 <= k < num_chunks ==> #[trigger] outputs[k] == 1
}

/// Driving a session with the syscall's answers for every chunk ends with the
/// verdict that the circuit is consistent exactly when the syscall accepts every
/// chunk, which by `lemma_chunks_cover_circuit` is exactly when the whole circuit
/// is consistent.
pub proof fn lemma_session_verdict(circuit: Seq<u8>, outputs: Seq<u32>)
    requires
        valid_circuit_len(circuit.len() as int),
        outputs.len() == num_syscalls(circuit_num_gates(circuit.len() as int)),
        forall|k: int| 0 <= k < outputs.len() ==>
            #[trigger] outputs[k] == (if syscall_accepts(chunk_input(circuit, k)) { 1u32 } else { 0u32 }),
    ensures
        chunked_verdict(outputs, outputs.len() as int) == circuit_ok(circuit),
{
    lemma_chunks_cover_circuit(circuit);
    let s = outputs.len() as int;
    if chunked_verdict(outputs, s) {
        assert forall|k: int| 0 <= k < s implies #[trigger] syscall_accepts(chunk_input(circuit, k)) by {
            assert(outputs[k] == 1);
        }
    } else {
        let k = choose|k: int| 0 <= k < s && #[trigger] outputs[k] != 1;
        assert(!syscall_accepts(chunk_input(circuit, k)));
    }
}

} // verus!
