use palette_favorites::FavoritesError;
use palette_favorites::generator::random_palette;

fn is_color_code(s: &str) -> bool {
    let bytes = s.as_bytes();
    bytes.len() == 7 && bytes[0] == b'#' && bytes[1..].iter().all(|b| {
        (b'0'..=b'9').contains(b) || (b'A'..=b'F').contains(b)
    })
}

#[test]
fn five_well_formed_codes_from_enough_entropy() {
    let entropy: Vec<u8> = (0..32u8).collect();
    let out = random_palette(&entropy).unwrap();
    assert_eq!(out.len(), 5);
    for code in &out {
        assert!(is_color_code(code), "bad code: {}", code);
    }
}

#[test]
fn no_entropy_fails() {
    let entropy: Vec<u8> = Vec::new();
    let r = random_palette(&entropy);
    assert_eq!(r, Err(FavoritesError::EntropyUnavailable));
}

#[test]
fn short_entropy_fails() {
    let entropy: Vec<u8> = vec![7u8; 31];
    let r = random_palette(&entropy);
    assert_eq!(r, Err(FavoritesError::EntropyUnavailable));
}

#[test]
fn same_seed_same_palette() {
    let a: Vec<u8> = vec![42u8; 32];
    let b: Vec<u8> = vec![42u8; 32];
    assert_eq!(random_palette(&a).unwrap(), random_palette(&b).unwrap());
}

#[test]
fn only_first_thirty_two_bytes_matter() {
    let a: Vec<u8> = (0..32u8).collect();
    let mut b: Vec<u8> = (0..32u8).collect();
    b.extend_from_slice(&[0xFF; 16]);
    assert_eq!(random_palette(&a).unwrap(), random_palette(&b).unwrap());
}

#[test]
fn generator_matches_documented_stream() {
    // An independent rendering of the documented algorithm: xorshift64 seeded
    // by folding the 32 bytes in, one byte per channel from bits 32..40.
    let entropy: Vec<u8> = (0..32u8).collect();
    let step = |x: u64| {
        let a = x ^ (x << 13);
        let b = a ^ (a >> 7);
        b ^ (b << 17)
    };
    let mut state: u64 = 0x9E3779B97F4A7C15;
    for b in &entropy {
        state = step(state ^ (*b as u64));
    }
    let mut expected: Vec<String> = Vec::new();
    for _ in 0..5 {
        let mut ch = [0u8; 3];
        for c in ch.iter_mut() {
            state = step(state);
            *c = ((state >> 32) % 256) as u8;
        }
        expected.push(format!("#{:02X}{:02X}{:02X}", ch[0], ch[1], ch[2]));
    }
    assert_eq!(random_palette(&entropy).unwrap(), expected);
}

#[test]
fn different_seeds_can_differ() {
    let a: Vec<u8> = vec![0u8; 32];
    let b: Vec<u8> = vec![1u8; 32];
    // Not guaranteed in general for arbitrary pairs, but these two seeds give
    // different streams; a regression to a constant output would be caught.
    assert_ne!(random_palette(&a).unwrap(), random_palette(&b).unwrap());
}
