use check_key::CandidateGenerator;
use check_key::SetupError;

const ALPHABET: &[u8] = b"BCDFGHJKMPQRTVWXY2346789";

fn collect_all(template: &[u8], alphabet: &[u8]) -> Vec<Vec<u8>> {
    let mut g = CandidateGenerator::new(template.to_vec(), b'?', alphabet.to_vec())
        .expect("setup should succeed");
    let mut out: Vec<Vec<u8>> = Vec::new();
    loop {
        out.push(g.current());
        if g.advance() {
            break;
        }
    }
    out
}

#[test]
fn enumerates_exactly_n_pow_k_distinct_candidates() {
    // k = 2 masked positions over a 3-symbol alphabet: 9 candidates.
    let all = collect_all(b"a?b?", b"XYZ");
    assert_eq!(all.len(), 9);
    for i in 0..all.len() {
        for j in 0..all.len() {
            if i != j {
                assert_ne!(all[i], all[j]);
            }
        }
    }
}

#[test]
fn enumeration_order_is_least_significant_digit_first() {
    // Digit 0 belongs to the first masked position found, and carries run
    // toward the later ones.
    let all = collect_all(b"a?b?", b"XYZ");
    assert_eq!(all[0], b"aXbX".to_vec());
    assert_eq!(all[1], b"aYbX".to_vec());
    assert_eq!(all[2], b"aZbX".to_vec());
    assert_eq!(all[3], b"aXbY".to_vec());
    assert_eq!(all[8], b"aZbZ".to_vec());
}

#[test]
fn enumeration_is_deterministic() {
    let first = collect_all(b"??-?", b"XYZW");
    let second = collect_all(b"??-?", b"XYZW");
    assert_eq!(first, second);
}

#[test]
fn current_is_idempotent() {
    let g = CandidateGenerator::new(b"?a?".to_vec(), b'?', ALPHABET.to_vec())
        .expect("setup should succeed");
    let once = g.current();
    let twice = g.current();
    assert_eq!(once, twice);
    let thrice = g.current();
    assert_eq!(once, thrice);
}

#[test]
fn no_masked_position_yields_template_once() {
    let mut g = CandidateGenerator::new(b"FIXED-KEY".to_vec(), b'?', ALPHABET.to_vec())
        .expect("setup should succeed");
    assert_eq!(g.total(), 1);
    assert_eq!(g.current(), b"FIXED-KEY".to_vec());
    // The single candidate is the template; the first advance wraps.
    assert!(g.advance());
    assert_eq!(g.current(), b"FIXED-KEY".to_vec());
}

#[test]
fn total_counts_the_whole_space() {
    let g = CandidateGenerator::new(b"???".to_vec(), b'?', ALPHABET.to_vec())
        .expect("setup should succeed");
    assert_eq!(g.total(), 24 * 24 * 24);
}

#[test]
fn empty_alphabet_is_rejected() {
    let r = CandidateGenerator::new(b"?".to_vec(), b'?', Vec::new());
    assert_eq!(r.err(), Some(SetupError::EmptyAlphabet));
}

#[test]
fn repeated_symbol_is_rejected() {
    let r = CandidateGenerator::new(b"?".to_vec(), b'?', b"ABCA".to_vec());
    assert_eq!(r.err(), Some(SetupError::DuplicateSymbol));
}

#[test]
fn oversized_space_is_rejected() {
    // 24^14 exceeds u64::MAX, so fourteen masked positions must fail fast.
    let r = CandidateGenerator::new(b"??????????????".to_vec(), b'?', ALPHABET.to_vec());
    assert_eq!(r.err(), Some(SetupError::SpaceTooLarge));
}

#[test]
fn thirteen_masked_positions_still_fit() {
    // 24^13 still fits in a u64.
    let g = CandidateGenerator::new(b"?????????????".to_vec(), b'?', ALPHABET.to_vec())
        .expect("setup should succeed");
    assert_eq!(g.total(), 24u64.pow(13));
}
