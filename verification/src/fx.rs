//! Hit effects: the seed of a burst's shards and the cells of its sprite sheet.

use vstd::prelude::*;

verus! {

/// Columns of the sprite sheet.
pub const HIT_FX_COLS: u32 = 5;

/// Rows of the sprite sheet.
pub const HIT_FX_ROWS: u32 = 6;

/// Frames of the animation.
pub const HIT_FX_FRAMES: u32 = 30;

/// Shards of a burst.
pub const SHARD_COUNT: usize = 24;

/// The seed of a burst, out of the bits of the time at which it starts.
pub open spec fn seed_of(t0: u64) -> u64 {
    t0.wrapping_mul(6364136223846793005).wrapping_add(1442695040888963407)
}

/// The seed of a burst: the same whenever that burst is drawn.
pub fn fx_seed_of(t0: u64) -> (r: u64)
    ensures
        r == seed_of(t0),
{
    t0.wrapping_mul(6364136223846793005).wrapping_add(1442695040888963407)
}

/// The seed of shard `i` of a burst.
pub open spec fn shard_seed_of(seed: u64, i: nat) -> u64 {
    seed.wrapping_mul(0x9E3779B1).wrapping_add((i * 0x85EBCA6B) as u64)
}

/// The seed of a shard.
pub fn shard_seed(seed: u64, i: usize) -> (r: u64)
    requires
        i < SHARD_COUNT,
    ensures
        r == shard_seed_of(seed, i as nat),
{
    seed.wrapping_mul(0x9E3779B1).wrapping_add(i as u64 * 0x85EBCA6B)
}

/// The random number of a shard for one of its traits, of 31 bits.
pub fn shard_random(seed: u64, salt: u64) -> (r: u64)
    ensures
        r == seed.wrapping_mul(salt).wrapping_add(0x27D4EB2F) / 0x2_0000_0000,
        r < 0x8000_0000,
{
    seed.wrapping_mul(salt).wrapping_add(0x27D4EB2F) / 0x2_0000_0000
}

/// The column and row of a frame in the sprite sheet.
pub fn sheet_cell(frame: u32) -> (r: (u32, u32))
    requires
        frame < HIT_FX_FRAMES,
    ensures
        r.0 < HIT_FX_COLS,
        r.1 < HIT_FX_ROWS,
        r.1 * HIT_FX_COLS + r.0 == frame,
        r.0 < 5 && r.1 < 6 && 5 * r.1 + r.0 == frame,
{
    (frame % HIT_FX_COLS, frame / HIT_FX_COLS)
}

/// Law: the seed of a burst is the next number of a linear congruential generator from the bits of its
/// time, and that of a shard is mixed out of it and its number, both modulo 2 to the power of 64.
pub proof fn law_seeds(t0: u64, seed: u64, i: nat)
    requires
        i < 24,
    ensures
        seed_of(t0) == (t0 * 6364136223846793005 + 1442695040888963407) % 0x1_0000_0000_0000_0000,
        shard_seed_of(seed, i) == (seed * 2654435761 + i * 2246822507) % 0x1_0000_0000_0000_0000,
{
    lemma_mixed(t0 as int, 6364136223846793005, 1442695040888963407);
    lemma_mixed(seed as int, 2654435761, (i * 2246822507) as int);
}

proof fn lemma_mixed(x: int, a: int, b: int)
    requires
        0 <= b < 0x1_0000_0000_0000_0000,
    ensures
        ((x * a) % 0x1_0000_0000_0000_0000 + b) % 0x1_0000_0000_0000_0000 == (x * a + b)
            % 0x1_0000_0000_0000_0000,
{
    vstd::arithmetic::div_mod::lemma_add_mod_noop(x * a, b, 0x1_0000_0000_0000_0000);
    vstd::arithmetic::div_mod::lemma_small_mod(b as nat, 0x1_0000_0000_0000_0000);
}

} // verus!
