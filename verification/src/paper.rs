//! The integer side of the torn-paper look of intake cards: seeds, the
//! tilt's sign and fraction, and the edge noise generator.

use vstd::prelude::*;

verus! {

pub const GOLDEN: u64 = 0x9e37_79b9_7f4a_7c15;
pub const MIX1: u64 = 0xbf58_476d_1ce4_e5b9;
pub const MIX2: u64 = 0x94d0_49bb_1331_11eb;
pub const EDGE: u64 = 0xd1b5_4a32_d192_ed03;

pub open spec fn wmul(x: u64, y: u64) -> u64 {
    vstd::wrapping::u64_specs::wrapping_mul(x, y)
}

pub open spec fn wadd(x: u64, y: u64) -> u64 {
    vstd::wrapping::u64_specs::wrapping_add(x, y)
}

/// The splitmix64 finaliser.
pub open spec fn mix64_spec(v: u64) -> u64 {
    let a = wmul(v ^ (v >> 30u64), MIX1);
    let b = wmul(a ^ (a >> 27u64), MIX2);
    b ^ (b >> 31u64)
}

/// The splitmix64 finaliser: scrambles the bits of `value`.
pub fn mix64(value: u64) -> (r: u64)
    ensures
        r == mix64_spec(value),
{
    let a = (value ^ (value >> 30)).wrapping_mul(MIX1);
    let b = (a ^ (a >> 27)).wrapping_mul(MIX2);
    b ^ (b >> 31)
}

/// The splitmix64 generator behind the torn edges.
pub struct PaperRng(pub u64);

impl PaperRng {
    /// Advances the state by the golden-ratio step and returns its mix.
    pub fn next_u64(&mut self) -> (r: u64)
        ensures
            final(self).0 == wadd(old(self).0, GOLDEN),
            r == mix64_spec(final(self).0),
    {
        self.0 = self.0.wrapping_add(GOLDEN);
        mix64(self.0)
    }
}

/// The seed of a card from its batch, its key and its slot.
pub open spec fn paper_seed_spec(batch_gen: u64, item_key: u64, slot: u64) -> u64 {
    mix64_spec(wadd(wadd(wmul(batch_gen, GOLDEN), wmul(item_key, MIX1)), wmul(slot, MIX2)))
}

/// The seed of a card from its batch, its key and its slot.
pub fn paper_seed(batch_gen: u64, item_key: u64, slot: usize) -> (s: u64)
    ensures
        s == paper_seed_spec(batch_gen, item_key, slot as u64),
{
    mix64(
        batch_gen.wrapping_mul(GOLDEN).wrapping_add(item_key.wrapping_mul(MIX1)).wrapping_add(
            (slot as u64).wrapping_mul(MIX2),
        ),
    )
}

/// The seed of a card's torn edge.
pub fn paper_edge_seed(seed: u64) -> (s: u64)
    ensures
        s == mix64_spec(seed ^ EDGE),
{
    mix64(seed ^ EDGE)
}

/// Whether the card tilts clockwise (positive degrees).
pub fn paper_tilts_clockwise(seed: u64) -> (b: bool)
    ensures
        b == (seed & 1 != 0),
{
    seed & 1 != 0
}

/// The tilt fraction as 24 bits: the top bits of the seed rotated right by
/// 11. The tilt is 2.5° plus this fraction of 6.5°.
pub open spec fn tilt_bits_spec(seed: u64) -> u64 {
    ((seed >> 11u64) | (seed << 53u64)) >> 40u64
}

pub fn tilt_bits(seed: u64) -> (b: u32)
    ensures
        b == tilt_bits_spec(seed),
        b < 0x100_0000,
{
    let rotated = (seed >> 11) | (seed << 53);
    let top = rotated >> 40;
    assert(top < 0x100_0000) by (bit_vector)
        requires
            top == rotated >> 40u64,
    ;
    top as u32
}

/// The tilt fraction is below one: every card tilts by at least 2.5° and
/// less than 9°.
pub proof fn lemma_tilt_fraction_below_one(seed: u64)
    ensures
        tilt_bits_spec(seed) < 0x100_0000,
{
    let r = (seed >> 11u64) | (seed << 53u64);
    assert(r >> 40u64 < 0x100_0000) by (bit_vector);
}

} // verus!
