use vstd::prelude::*;
use vstd::std_specs::bits::*;

verus! {

/// Whether `x` is a power of two.
pub open spec fn is_power_of_two(x: u32) -> bool {
    x != 0 && x & ((x - 1) as u32) == 0
}

/// The number of bits needed to write `x`: the place of its highest set bit
/// plus one, and 0 for 0.
pub open spec fn bit_width(x: u32) -> u32 {
    (32 - u32_leading_zeros(x)) as u32
}

/// The mask with ones in the low `bits` places.
pub open spec fn low_mask(bits: u32) -> u32
    recommends
        bits <= 32,
{
    if bits == 0 {
        0
    } else {
        0xFFFF_FFFFu32 >> ((32 - bits) as u32)
    }
}

/// The field of `addr` that `mask` selects, moved down to bit 0. An empty mask
/// selects an empty field, whose value is 0.
pub open spec fn field(addr: u32, mask: u32) -> u32 {
    if mask == 0 {
        0
    } else {
        (addr & mask) >> u32_trailing_zeros(mask)
    }
}

/// The number of slots of a cache of `cache_size` bits.
pub open spec fn positions(cache_size: u32) -> u32 {
    cache_size / 8
}

/// The mask of the word field: the low bits that pick a word in a line.
pub open spec fn word_mask(line_size: u32) -> u32 {
    (line_size - 1) as u32
}

/// The mask of the line field of a direct-mapped cache: the number of lines
/// less one, placed just above the word field.
pub open spec fn line_mask(cache_size: u32, line_size: u32) -> u32
    recommends
        line_size != 0,
{
    ((positions(cache_size) / line_size - 1) as u32) << bit_width(word_mask(line_size))
}

/// The geometries that a direct-mapped cache accepts: the line size is a power
/// of two, the slots divide into at least one whole line, the address has at
/// most 32 bits, and the slots do not outnumber the addresses.
pub open spec fn direct_geometry_ok(cache_size: u32, line_size: u32, address_size: u32) -> bool {
    &&& is_power_of_two(line_size)
    &&& address_size <= 32
    &&& positions(cache_size) >= line_size
    &&& positions(cache_size) % line_size == 0
    &&& positions(cache_size) - 1 <= low_mask(address_size)
}

/// The number of bits in an address word.
pub fn type_bits() -> (r: u32)
    ensures
        r == 32,
{
    32
}

/// Computes `bit_width`.
pub fn num_bits(x: u32) -> (r: u32)
    ensures
        r == bit_width(x),
        r <= 32,
        x == 0 <==> r == 0,
{
    broadcast use axiom_u32_leading_zeros;

    type_bits() - x.leading_zeros()
}

/// Computes `low_mask`.
pub fn low_bits(bits: u32) -> (r: u32)
    requires
        bits <= 32,
    ensures
        r == low_mask(bits),
{
    if bits == 0 {
        0
    } else {
        0xFFFF_FFFFu32 >> (type_bits() - bits)
    }
}

/// Computes `field`.
pub fn extract(addr: u32, mask: u32) -> (r: u32)
    ensures
        r == field(addr, mask),
{
    broadcast use axiom_u32_trailing_zeros;

    if mask == 0 {
        0
    } else {
        (addr & mask) >> mask.trailing_zeros()
    }
}

/// A value below 2^31 needs fewer than 32 bits.
pub proof fn lemma_bit_width_bound(x: u32)
    requires
        x < 0x8000_0000,
    ensures
        bit_width(x) < 32,
{
    broadcast use axiom_u32_leading_zeros;

    let lz = u32_leading_zeros(x);
    if lz == 0 {
        assert((x >> 31u32) & 1u32 == 0u32) by (bit_vector)
            requires
                x < 0x8000_0000u32,
        ;
    }
}

/// A power of two is a single bit, at the place that the width of the number
/// below it names.
pub proof fn lemma_power_of_two_is_one_bit(x: u32)
    requires
        is_power_of_two(x),
    ensures
        bit_width((x - 1) as u32) < 32,
        x == 1u32 << bit_width((x - 1) as u32),
{
    broadcast use axiom_u32_leading_zeros;

    let m = (x - 1) as u32;
    let lz = u32_leading_zeros(m);
    let w = (32 - lz) as u32;
    assert((m >> 31u32) & 1u32 == 0u32) by (bit_vector)
        requires
            x != 0,
            m == (x - 1) as u32,
            x & m == 0,
    ;
    if lz == 32 {
        assert(1u32 << 0u32 == 1u32) by (bit_vector);
    } else {
        let below = (w - 1) as u32;
        assert(m >> w == 0);
        assert((m >> below) & 1u32 != 0u32);
        assert(x == 1u32 << w) by (bit_vector)
            requires
                x != 0,
                m == (x - 1) as u32,
                x & m == 0,
                1 <= w < 32,
                below == (w - 1) as u32,
                m >> w == 0,
                (m >> below) & 1u32 != 0u32,
        ;
    }
}

/// A field keeps the bits it selects: two addresses with the same field under
/// `mask` agree on every bit of `mask`.
pub proof fn lemma_field_keeps_bits(x: u32, y: u32, mask: u32)
    requires
        field(x, mask) == field(y, mask),
    ensures
        x & mask == y & mask,
{
    broadcast use axiom_u32_trailing_zeros;

    if mask == 0 {
        assert(x & mask == y & mask) by (bit_vector)
            requires
                mask == 0,
        ;
    } else {
        let t = u32_trailing_zeros(mask);
        if t == 0 {
            assert(x & mask == y & mask) by (bit_vector)
                requires
                    t == 0,
                    (x & mask) >> t == (y & mask) >> t,
            ;
        } else {
            let s = (32 - t) as u32;
            assert(mask << s == 0);
            assert(x & mask == y & mask) by (bit_vector)
                requires
                    0 < t < 32,
                    s == (32 - t) as u32,
                    mask << s == 0,
                    (x & mask) >> t == (y & mask) >> t,
            ;
        }
    }
}

/// The line field of a direct-mapped cache stays below the number of lines.
pub proof fn lemma_line_field_bound(cache_size: u32, line_size: u32, address_size: u32, x: u32)
    requires
        direct_geometry_ok(cache_size, line_size, address_size),
    ensures
        field(x, line_mask(cache_size, line_size)) < positions(cache_size) / line_size,
{
    broadcast use axiom_u32_trailing_zeros;

    lemma_power_of_two_is_one_bit(line_size);
    let slots = positions(cache_size);
    let w = bit_width(word_mask(line_size));
    let top = (slots / line_size - 1) as u32;
    let lm = line_mask(cache_size, line_size);
    assert(slots / line_size >= 1) by (nonlinear_arith)
        requires
            slots >= line_size,
            line_size > 0,
    ;
    if lm != 0 {
        let t = u32_trailing_zeros(lm);
        assert((lm >> t) & 1u32 == 1u32);
        assert((x & lm) >> t <= top) by (bit_vector)
            requires
                w < 32,
                t < 32,
                line_size == 1u32 << w,
                slots >= line_size,
                slots % line_size == 0,
                top == (slots / line_size - 1) as u32,
                lm == top << w,
                (lm >> t) & 1u32 == 1u32,
        ;
    }
}

/// The fields of a direct-mapped cache part the address: in an accepted
/// geometry the word mask and the line mask share no bit and together are the
/// number of slots less one, and what is left of the low `address_size` bits,
/// the tag mask, shares no bit with them and makes up, with them, exactly
/// those bits.
pub proof fn lemma_masks_part_the_address(cache_size: u32, line_size: u32, address_size: u32)
    requires
        direct_geometry_ok(cache_size, line_size, address_size),
    ensures
        word_mask(line_size) & line_mask(cache_size, line_size) == 0,
        word_mask(line_size) | line_mask(cache_size, line_size) == positions(cache_size) - 1,
        (low_mask(address_size) ^ (line_mask(cache_size, line_size) | word_mask(line_size))) & (
        line_mask(cache_size, line_size) | word_mask(line_size)) == 0,
        (low_mask(address_size) ^ (line_mask(cache_size, line_size) | word_mask(line_size))) | (
        line_mask(cache_size, line_size) | word_mask(line_size)) == low_mask(address_size),
{
    lemma_power_of_two_is_one_bit(line_size);
    let slots = positions(cache_size);
    let wm = word_mask(line_size);
    let w = bit_width(wm);
    let top = (slots / line_size - 1) as u32;
    let lm = line_mask(cache_size, line_size);
    let low = low_mask(address_size);
    assert(slots / line_size >= 1) by (nonlinear_arith)
        requires
            slots >= line_size,
            line_size > 0,
    ;
    assert(wm & lm == 0 && (wm | lm) == (slots - 1) as u32 && (lm | wm) == (wm | lm))
        by (bit_vector)
        requires
            w < 32,
            line_size == 1u32 << w,
            wm == (line_size - 1) as u32,
            slots >= line_size,
            slots % line_size == 0,
            top == (slots / line_size - 1) as u32,
            lm == top << w,
    ;
    let used = lm | wm;
    if address_size == 0 {
        assert((low ^ used) & used == 0 && (low ^ used) | used == low) by (bit_vector)
            requires
                low == 0,
                used <= low,
        ;
    } else {
        let shift = (32 - address_size) as u32;
        assert((low ^ used) & used == 0 && (low ^ used) | used == low) by (bit_vector)
            requires
                shift < 32,
                low == 0xFFFF_FFFFu32 >> shift,
                used <= low,
        ;
    }
}

} // verus!
