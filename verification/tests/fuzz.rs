//! Robustness: the parser, fed arbitrary bytes, either succeeds or
//! returns an error, and never panics. Verification already proves the
//! absence of panics; these runs exercise the compiled code on large
//! pseudo-random inputs.

use tinyvg::parser::Parser;

/// A small deterministic generator (a linear congruential step), so the
/// inputs are reproducible.
fn pseudo_random_bytes(seed: u64, len: usize) -> Vec<u8> {
    let mut state = seed;
    let mut out = Vec::with_capacity(len);
    for _ in 0..len {
        state = state.wrapping_mul(6364136223846793005).wrapping_add(1442695040888963407);
        out.push((state >> 56) as u8);
    }
    out
}

#[test]
fn random_64k_inputs_never_panic() {
    for seed in 0..8u64 {
        let bytes = pseudo_random_bytes(seed, 64 * 1024);
        let _ = Parser::new(bytes).parse();
    }
}

#[test]
fn random_inputs_with_valid_magic_never_panic() {
    for seed in 100..116u64 {
        let mut bytes = pseudo_random_bytes(seed, 4096);
        bytes[0] = 0x72;
        bytes[1] = 0x56;
        // Keep the flags byte acceptable so the command phase is reached
        // often: scale from the seed, RGBA 8888, reduced range.
        bytes[3] = (((seed as u8) % 16) * 16) | 0x01;
        let _ = Parser::new(bytes).parse();
    }
}

#[test]
fn degenerate_inputs_never_panic() {
    let cases: Vec<Vec<u8>> = vec![
        vec![],
        vec![0x72],
        vec![0x72, 0x56],
        vec![0xFF; 1024],
        vec![0x00; 1024],
        vec![0x80; 1024],
        vec![0x72, 0x56, 0x01, 0x01, 0xFF, 0xFF],
    ];
    for bytes in cases {
        let _ = Parser::new(bytes).parse();
    }
}
