//! Random palette generation: a fixed-length seed taken from host-supplied
//! entropy drives a deterministic pseudo-random byte stream, and five colors
//! are emitted as uppercase `#RRGGBB` strings in draw order.
//!
//! The generator holds no state across calls: every call reseeds from fresh
//! entropy, so two calls agree only if the host handed them the same bytes.

use vstd::prelude::*;
use crate::FavoritesError;
use crate::ascii::ascii_to_string;

verus! {

/// Exactly this many entropy bytes seed one generation; fewer is a failure.
pub const SEED_BYTES: usize = 32;

/// How many colors one generation emits.
pub const PALETTE_SIZE: usize = 5;

/// One transition of the xorshift64 pseudo-random generator.
pub open spec fn spec_step(x: u64) -> u64 {
    let a = x ^ (x << 13);
    let b = a ^ (a >> 7);
    b ^ (b << 17)
}

/// The generator state after absorbing a prefix of the seed bytes.
pub open spec fn spec_seed_fold(bytes: Seq<u8>) -> u64
    decreases bytes.len(),
{
    if bytes.len() == 0 {
        0x9E3779B97F4A7C15u64
    } else {
        spec_step(spec_seed_fold(bytes.drop_last()) ^ (bytes.last() as u64))
    }
}

/// The state after `k` transitions from the seed.
pub open spec fn spec_stream(seed: u64, k: nat) -> u64
    decreases k,
{
    if k == 0 {
        seed
    } else {
        spec_step(spec_stream(seed, (k - 1) as nat))
    }
}

/// The `k`-th channel byte drawn from the seed.
pub open spec fn spec_channel(seed: u64, k: nat) -> u8 {
    ((spec_stream(seed, k + 1) >> 32) % 256) as u8
}

/// The uppercase hexadecimal digit for a value below 16.
pub open spec fn hex_digit(n: u8) -> char
    recommends
        n < 16,
{
    if n < 10 {
        (48 + n) as char
    } else {
        (55 + n) as char
    }
}

/// A decimal digit or an uppercase `A` through `F`.
pub open spec fn is_upper_hex(c: char) -> bool {
    (48 <= c as u32 && c as u32 <= 57) || (65 <= c as u32 && c as u32 <= 70)
}

/// A well-formed color code: `#` followed by six uppercase hex digits.
pub open spec fn is_color_code(s: Seq<char>) -> bool {
    &&& s.len() == 7
    &&& s[0] == '#'
    &&& forall|i: int| 1 <= i < 7 ==> is_upper_hex(#[trigger] s[i])
}

/// The code formatted for one (red, green, blue) byte triple.
pub open spec fn spec_color_code(r: u8, g: u8, b: u8) -> Seq<char> {
    seq![
        '#',
        hex_digit((r / 16) as u8),
        hex_digit((r % 16) as u8),
        hex_digit((g / 16) as u8),
        hex_digit((g % 16) as u8),
        hex_digit((b / 16) as u8),
        hex_digit((b % 16) as u8),
    ]
}

/// The five color codes one seed generates, in draw order.
pub open spec fn spec_palette_codes(seed: u64) -> Seq<Seq<char>> {
    Seq::new(
        PALETTE_SIZE as nat,
        |i: int|
            spec_color_code(
                spec_channel(seed, (3 * i) as nat),
                spec_channel(seed, (3 * i + 1) as nat),
                spec_channel(seed, (3 * i + 2) as nat),
            ),
    )
}

/// A hexadecimal digit of a value below 16 is a digit or uppercase letter.
pub proof fn lemma_hex_digit_upper(n: u8)
    requires
        n < 16,
    ensures
        is_upper_hex(hex_digit(n)),
{
}

/// Every generated palette has exactly five entries, each a well-formed
/// color code.
pub proof fn lemma_palette_codes_wf(seed: u64)
    ensures
        spec_palette_codes(seed).len() == PALETTE_SIZE,
        forall|i: int|
            0 <= i < PALETTE_SIZE ==> is_color_code(#[trigger] spec_palette_codes(seed)[i]),
{
    assert forall|i: int| 0 <= i < PALETTE_SIZE implies is_color_code(
        #[trigger] spec_palette_codes(seed)[i],
    ) by {
        let s = spec_palette_codes(seed)[i];
        let r = spec_channel(seed, (3 * i) as nat);
        let g = spec_channel(seed, (3 * i + 1) as nat);
        let b = spec_channel(seed, (3 * i + 2) as nat);
        lemma_hex_digit_upper((r / 16) as u8);
        lemma_hex_digit_upper((r % 16) as u8);
        lemma_hex_digit_upper((g / 16) as u8);
        lemma_hex_digit_upper((g % 16) as u8);
        lemma_hex_digit_upper((b / 16) as u8);
        lemma_hex_digit_upper((b % 16) as u8);
        assert forall|k: int| 1 <= k < 7 implies is_upper_hex(#[trigger] s[k]) by {
            assert(s == spec_color_code(r, g, b));
        }
    }
}

/// One transition of the xorshift64 generator.
fn step(x: u64) -> (r: u64)
    ensures
        r == spec_step(x),
{
    let a = x ^ (x << 13u64);
    let b = a ^ (a >> 7u64);
    b ^ (b << 17u64)
}

/// The byte of the upper-middle bits of a state word.
fn state_byte(x: u64) -> (r: u8)
    ensures
        r == (((x >> 32) % 256) as u8),
{
    ((x >> 32u64) % 256) as u8
}

/// The executable hexadecimal digit for a value below 16, as an ASCII byte.
fn hex_digit_byte(n: u8) -> (r: u8)
    requires
        n < 16,
    ensures
        r < 128,
        r as char == hex_digit(n),
{
    if n < 10 {
        48 + n
    } else {
        55 + n
    }
}

/// Formats one (red, green, blue) byte triple as `#RRGGBB`.
fn color_code(r: u8, g: u8, b: u8) -> (s: String)
    ensures
        s@ == spec_color_code(r, g, b),
{
    let mut bytes: Vec<u8> = Vec::new();
    bytes.push(35);
    bytes.push(hex_digit_byte(r / 16));
    bytes.push(hex_digit_byte(r % 16));
    bytes.push(hex_digit_byte(g / 16));
    bytes.push(hex_digit_byte(g % 16));
    bytes.push(hex_digit_byte(b / 16));
    bytes.push(hex_digit_byte(b % 16));
    let s = ascii_to_string(bytes);
    proof {
        assert(s@ =~= spec_color_code(r, g, b));
    }
    s
}

/// Generates five random colors from host entropy. The first `SEED_BYTES`
/// bytes seed the stream deterministically; with fewer bytes the call fails
/// with `EntropyUnavailable` and produces nothing.
pub fn random_palette(entropy: &Vec<u8>) -> (r: Result<Vec<String>, FavoritesError>)
    ensures
        (entropy@.len() < SEED_BYTES) <==> (r == Err::<Vec<String>, FavoritesError>(
            FavoritesError::EntropyUnavailable,
        )),
        r is Err ==> r == Err::<Vec<String>, FavoritesError>(FavoritesError::EntropyUnavailable),
        (r matches Ok(v) ==> {
            &&& v.deep_view() == spec_palette_codes(
                spec_seed_fold(entropy@.take(SEED_BYTES as int)),
            )
            &&& v@.len() == PALETTE_SIZE
            &&& forall|i: int| 0 <= i < v@.len() ==> is_color_code(#[trigger] v.deep_view()[i])
        }),
{
    if entropy.len() < SEED_BYTES {
        return Err(FavoritesError::EntropyUnavailable);
    }
    let mut state: u64 = 0x9E3779B97F4A7C15;
    let mut i: usize = 0;
    while i < SEED_BYTES
        invariant
            i <= SEED_BYTES,
            entropy@.len() >= SEED_BYTES,
            state == spec_seed_fold(entropy@.take(i as int)),
        decreases SEED_BYTES - i,
    {
        proof {
            assert(entropy@.take(i + 1int).drop_last() =~= entropy@.take(i as int));
            assert(entropy@.take(i + 1int).last() == entropy@[i as int]);
        }
        state = step(state ^ (entropy[i] as u64));
        i += 1;
    }
    let ghost seed = state;
    let mut out: Vec<String> = Vec::new();
    let mut k: usize = 0;
    while k < PALETTE_SIZE
        invariant
            k <= PALETTE_SIZE,
            out@.len() == k,
            state == spec_stream(seed, (3 * k) as nat),
            forall|m: int| 0 <= m < k ==> out.deep_view()[m] == spec_palette_codes(seed)[m],
        decreases PALETTE_SIZE - k,
    {
        proof {
            assert(spec_stream(seed, (3 * k + 1) as nat) == spec_step(
                spec_stream(seed, (3 * k) as nat),
            ));
            assert(spec_stream(seed, (3 * k + 2) as nat) == spec_step(
                spec_stream(seed, (3 * k + 1) as nat),
            ));
            assert(spec_stream(seed, (3 * k + 3) as nat) == spec_step(
                spec_stream(seed, (3 * k + 2) as nat),
            ));
        }
        state = step(state);
        let red = state_byte(state);
        state = step(state);
        let green = state_byte(state);
        state = step(state);
        let blue = state_byte(state);
        let ghost out0 = out.deep_view();
        out.push(color_code(red, green, blue));
        proof {
            assert(red == spec_channel(seed, (3 * k) as nat));
            assert(green == spec_channel(seed, (3 * k + 1) as nat));
            assert(blue == spec_channel(seed, (3 * k + 2) as nat));
            assert(out.deep_view() =~= out0.push(spec_color_code(red, green, blue)));
        }
        k += 1;
    }
    proof {
        assert(out.deep_view() =~= spec_palette_codes(seed));
        lemma_palette_codes_wf(seed);
    }
    Ok(out)
}

} // verus!
