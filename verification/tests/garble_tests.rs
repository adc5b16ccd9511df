use ziren::garble::{check_garbled_gates, garble_reads, garble_syscall_output, GarbleSession};
use ziren::fuzz_target::{raw_instruction_words, raw_outcome_accepted, raw_program_runs, RunOutcome};

fn gate_words(gate_type: u32, h0: [u32; 4], h1: [u32; 4], label_b: [u32; 4], expected: [u32; 4]) -> Vec<u32> {
    let mut w = vec![gate_type];
    w.extend_from_slice(&h0);
    w.extend_from_slice(&h1);
    w.extend_from_slice(&label_b);
    w.extend_from_slice(&expected);
    w
}

fn words_to_bytes(words: &[u32]) -> Vec<u8> {
    words.iter().flat_map(|w| w.to_le_bytes()).collect()
}

fn bytes_to_words(bytes: &[u8]) -> Vec<u32> {
    bytes.chunks_exact(4).map(|c| u32::from_le_bytes([c[0], c[1], c[2], c[3]])).collect()
}

/// The syscall's answer for an input region laid out by the guest.
fn host_answer(input: &[u8]) -> u32 {
    let words = bytes_to_words(input);
    let num_gates = words[0];
    let delta = [words[1], words[2], words[3], words[4]];
    garble_syscall_output(num_gates, &delta, &words[5..5 + 17 * num_gates as usize])
}

fn good_gates() -> Vec<u32> {
    // Gate type 0: h0 ^ h1 ^ label_b.
    let mut g = gate_words(0, [1, 2, 3, 4], [5, 6, 7, 8], [9, 10, 11, 12], [13, 14, 15, 0]);
    // Gate type 1: h0 ^ h1 ^ label_b ^ delta with delta = [16, 32, 64, 128].
    g.extend(gate_words(1, [1, 2, 3, 4], [5, 6, 7, 8], [9, 10, 11, 12], [29, 46, 79, 128]));
    g
}

#[test]
fn consistent_gates_are_accepted() {
    let delta = [16, 32, 64, 128];
    assert!(check_garbled_gates(2, &delta, &good_gates()));
    assert_eq!(garble_syscall_output(2, &delta, &good_gates()), 1);
}

#[test]
fn one_wrong_word_is_rejected() {
    let delta = [16, 32, 64, 128];
    let mut gates = good_gates();
    gates[17 + 16] ^= 1;
    assert!(!check_garbled_gates(2, &delta, &gates));
    assert_eq!(garble_syscall_output(2, &delta, &gates), 0);
}

#[test]
fn delta_matters_only_for_nonzero_gate_type() {
    let gates = gate_words(0, [1, 2, 3, 4], [5, 6, 7, 8], [9, 10, 11, 12], [13, 14, 15, 0]);
    assert!(check_garbled_gates(1, &[0xdead, 0xbeef, 1, 2], &gates));
    let gates = gate_words(7, [1, 2, 3, 4], [5, 6, 7, 8], [9, 10, 11, 12], [13, 14, 15, 0]);
    assert!(check_garbled_gates(1, &[0, 0, 0, 0], &gates));
    assert!(!check_garbled_gates(1, &[0, 0, 0, 1], &gates));
}

#[test]
fn empty_chunk_is_accepted() {
    assert!(check_garbled_gates(0, &[1, 2, 3, 4], &[]));
}

#[test]
fn syscall_reads_follow_the_layout() {
    let r = garble_reads(0x1000, 3);
    assert_eq!(r.num_gates_addr, 0x1000);
    assert_eq!(r.delta_addr, 0x1004);
    assert_eq!(r.gates_addr, 0x1014);
    assert_eq!(r.gates_len, 51);
}

fn circuit(delta: [u32; 4], gates: &[u32]) -> Vec<u8> {
    let mut c = words_to_bytes(&delta);
    c.extend(words_to_bytes(gates));
    c
}

#[test]
fn single_chunk_session_frames_the_input() {
    let c = circuit([16, 32, 64, 128], &good_gates());
    let mut s = GarbleSession::new(&c);
    assert_eq!(s.num_gates, 2);
    assert_eq!(s.num_syscalls, 1);
    let input = s.next_input(&c);
    assert_eq!(input.len(), 20 + 2 * 68);
    assert_eq!(&input[0..4], &[2, 0, 0, 0]);
    assert_eq!(&input[4..], &c[..]);
    assert_eq!(host_answer(&input), 1);
    assert_eq!(s.record_output(1), Some(true));
}

#[test]
fn rejected_chunk_ends_the_session() {
    let c = circuit([16, 32, 64, 128], &good_gates());
    let mut s = GarbleSession::new(&c);
    assert_eq!(s.record_output(0), Some(false));
}

#[test]
fn large_circuit_is_split_into_chunks() {
    let n = 62501usize;
    let mut gates = Vec::with_capacity(17 * n);
    for _ in 0..n {
        gates.extend(gate_words(0, [1, 2, 3, 4], [5, 6, 7, 8], [9, 10, 11, 12], [13, 14, 15, 0]));
    }
    // Break the very last gate: only the second chunk sees it.
    let last = gates.len() - 1;
    gates[last] = 1;
    let c = circuit([16, 32, 64, 128], &gates);
    let mut s = GarbleSession::new(&c);
    assert_eq!(s.num_syscalls, 2);
    let first = s.next_input(&c);
    assert_eq!(&first[0..4], &62500u32.to_le_bytes());
    assert_eq!(first.len(), 20 + 62500 * 68);
    assert_eq!(host_answer(&first), 1);
    assert_eq!(s.record_output(1), None);
    assert_eq!(s.next_chunk, 1);
    let second = s.next_input(&c);
    assert_eq!(&second[0..4], &1u32.to_le_bytes());
    assert_eq!(&second[4..20], &c[0..16]);
    assert_eq!(&second[20..], &c[16 + 62500 * 68..]);
    assert_eq!(host_answer(&second), 0);
    assert_eq!(s.record_output(0), Some(false));
}

#[test]
fn raw_input_is_read_as_little_endian_words() {
    let data = [0x78, 0x56, 0x34, 0x12, 0xff, 0, 0, 0, 9, 9];
    assert_eq!(raw_instruction_words(&data), vec![0x12345678, 0xff]);
    assert_eq!(raw_instruction_words(&[1, 2, 3]), Vec::<u32>::new());
}

#[test]
fn only_unexpected_errors_are_findings() {
    assert!(raw_outcome_accepted(RunOutcome::Finished));
    assert!(raw_outcome_accepted(RunOutcome::InvalidMemoryAccess));
    assert!(raw_outcome_accepted(RunOutcome::Breakpoint));
    assert!(!raw_outcome_accepted(RunOutcome::OtherError));
}

#[test]
fn empty_decoded_programs_are_not_run() {
    assert!(!raw_program_runs(0));
    assert!(raw_program_runs(1));
    assert!(raw_program_runs(250));
}
