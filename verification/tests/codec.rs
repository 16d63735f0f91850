use rustmatica::codec::{pack, unpack};

/// A small deterministic pseudo-random generator for test data.
fn next_seed(seed: &mut u64) -> u64 {
    *seed = seed.wrapping_mul(6364136223846793005).wrapping_add(1442695040888963407);
    *seed >> 33
}

#[test]
fn pack_unpack_round_trip_widths_2_to_16() {
    let mut seed: u64 = 42;
    for w in 2u64..=16 {
        for n in [0usize, 1, 2, 21, 22, 32, 33, 64, 100, 257] {
            let ids: Vec<u64> = (0..n).map(|_| next_seed(&mut seed) % (1u64 << w)).collect();
            let words = pack(&ids, w);
            let back = unpack(&words, w, n);
            assert_eq!(back, ids);
        }
    }
}

#[test]
fn pack_layout_is_exact() {
    // Eight 2-bit identifiers fill the low 16 bits of one word, in order,
    // two bits each, and every unused high bit is zero.
    let ids: Vec<u64> = vec![0, 1, 2, 3, 0, 1, 2, 3];
    let words = pack(&ids, 2);
    assert_eq!(words, vec![0xE4E4u64]);

    // At width 3 a word holds 21 identifiers; the 22nd starts a new word.
    let ids: Vec<u64> = (0..22).map(|i| (i % 8) as u64).collect();
    let words = pack(&ids, 3);
    assert_eq!(words.len(), 2);
    assert_eq!(words[1], (21 % 8) as u64);
    let back = unpack(&words, 3, 22);
    assert_eq!(back, ids);
}

#[test]
fn word_counts_respect_word_alignment() {
    // Width 3: 21 identifiers per word, never split across a boundary.
    assert_eq!(pack(&vec![0; 21], 3).len(), 1);
    assert_eq!(pack(&vec![0; 22], 3).len(), 2);
    // Width 2: 32 identifiers per word.
    assert_eq!(pack(&vec![0; 64], 2).len(), 2);
    assert_eq!(pack(&vec![0; 65], 2).len(), 3);
    // No identifiers need no words.
    assert_eq!(pack(&Vec::new(), 5).len(), 0);
}
