use vstd::prelude::*;
use crate::access::{Accessable, CacheMemory};
use crate::address::{
    direct_geometry_ok, extract, field, lemma_bit_width_bound, lemma_field_keeps_bits,
    lemma_line_field_bound, lemma_masks_part_the_address, line_mask, low_bits, low_mask, num_bits,
    positions, word_mask,
};
use crate::error::MemoryError;

verus! {

/// Decides `direct_geometry_ok`.
pub fn direct_geometry_valid(cache_size: u32, line_size: u32, address_size: u32) -> (b: bool)
    ensures
        b == direct_geometry_ok(cache_size, line_size, address_size),
{
    if line_size == 0 || address_size > 32 {
        return false;
    }
    let slots: u32 = cache_size / 8;
    line_size & (line_size - 1) == 0 && slots >= line_size && slots % line_size == 0 && slots - 1
        <= low_bits(address_size)
}

/// A direct-mapped cache: each address has exactly one slot it may live in.
///
/// The slot is chosen by the line and word fields of the address; the tag
/// field is stored with the value and tells on a read whether the slot holds
/// the address that is asked for.
pub struct CacheDirect<T> {
    pub internal_memory: Vec<CacheMemory<T, u32>>,
    pub cache_size: u32,
    pub line_size: u32,
    pub address_size: u32,
}

impl<T: Copy> CacheDirect<T> {
    /// Whether the geometry is one that a direct-mapped cache accepts.
    pub open spec fn geometry_ok(&self) -> bool {
        direct_geometry_ok(self.cache_size, self.line_size, self.address_size)
    }

    /// The mask of the tag field: the bits of the address above the line and
    /// word fields.
    pub open spec fn tag_mask(&self) -> u32 {
        low_mask(self.address_size) ^ (line_mask(self.cache_size, self.line_size) | word_mask(
            self.line_size,
        ))
    }

    /// The tag field of `pos`.
    pub open spec fn tag_of(&self, pos: u32) -> u32 {
        field(pos, self.tag_mask())
    }

    /// The slot of `pos`: its line, counted modulo the number of lines and
    /// scaled by the line size, plus its word offset.
    pub open spec fn slot_of(&self, pos: u32) -> int {
        (field(pos, line_mask(self.cache_size, self.line_size)) % (positions(self.cache_size)
            / self.line_size)) * self.line_size + (pos & word_mask(self.line_size))
    }

    /// Every address has a slot inside the cache.
    pub proof fn lemma_slot_in_range(&self, pos: u32)
        requires
            self.geometry_ok(),
        ensures
            0 <= self.slot_of(pos) < positions(self.cache_size),
    {
        let ls = self.line_size;
        let wm = word_mask(ls);
        let lines = positions(self.cache_size) / ls;
        let line = field(pos, line_mask(self.cache_size, ls)) % lines;
        assert(pos & wm <= wm) by (bit_vector);
        assert(lines * ls == positions(self.cache_size)) by (nonlinear_arith)
            requires
                lines == positions(self.cache_size) / ls,
                positions(self.cache_size) % ls == 0,
                ls > 0,
        ;
        assert(line * ls + ls <= lines * ls) by (nonlinear_arith)
            requires
                0 <= line < lines,
                ls > 0,
        ;
        assert(0 <= line * ls) by (nonlinear_arith)
            requires
                0 <= line,
                ls > 0,
        ;
    }

    /// Slot and tag name the address: two addresses of `address_size` bits
    /// that share their slot and their tag are one address. So a hit never
    /// answers for another address than the one that was stored.
    pub proof fn lemma_slot_and_tag_name_the_address(&self, a: u32, b: u32)
        requires
            self.geometry_ok(),
            a <= low_mask(self.address_size),
            b <= low_mask(self.address_size),
            self.slot_of(a) == self.slot_of(b),
            self.tag_of(a) == self.tag_of(b),
        ensures
            a == b,
    {
        let ls = self.line_size;
        let wm = word_mask(ls);
        let lm = line_mask(self.cache_size, ls);
        let tm = self.tag_mask();
        let low = low_mask(self.address_size);
        let lines = positions(self.cache_size) / ls;
        lemma_masks_part_the_address(self.cache_size, ls, self.address_size);
        lemma_line_field_bound(self.cache_size, ls, self.address_size, a);
        lemma_line_field_bound(self.cache_size, ls, self.address_size, b);
        let la = field(a, lm);
        let lb = field(b, lm);
        let wa = a & wm;
        let wb = b & wm;
        assert(la % lines == la && lb % lines == lb) by (nonlinear_arith)
            requires
                0 <= la < lines,
                0 <= lb < lines,
        ;
        assert(wa <= wm && wb <= wm) by (bit_vector)
            requires
                wa == a & wm,
                wb == b & wm,
        ;
        assert(la == lb && wa == wb) by (nonlinear_arith)
            requires
                la * ls + wa == lb * ls + wb,
                0 <= wa < ls,
                0 <= wb < ls,
                0 <= la,
                0 <= lb,
        ;
        lemma_field_keeps_bits(a, b, lm);
        lemma_field_keeps_bits(a, b, tm);
        let used = lm | wm;
        if self.address_size == 0 {
            assert(a == 0 && b == 0);
        } else {
            let shift = (32 - self.address_size) as u32;
            assert(a == b) by (bit_vector)
                requires
                    shift < 32,
                    low == 0xFFFF_FFFFu32 >> shift,
                    a <= low,
                    b <= low,
                    used == lm | wm,
                    tm | used == low,
                    a & tm == b & tm,
                    a & lm == b & lm,
                    a & wm == b & wm,
            ;
        }
    }

    /// Makes a cache of the given geometry, every slot holding `fill` under
    /// tag 0. Until it is overwritten, such a slot answers reads of the
    /// addresses that map to it with tag 0, and of no others.
    pub fn new(cache_size: u32, line_size: u32, address_size: u32, fill: T) -> (r: Result<
        Self,
        MemoryError,
    >)
        ensures
            match r {
                Ok(c) => {
                    &&& direct_geometry_ok(cache_size, line_size, address_size)
                    &&& c.valid()
                    &&& c.cache_size == cache_size
                    &&& c.line_size == line_size
                    &&& c.address_size == address_size
                    &&& forall|i: int|
                        0 <= i < positions(cache_size) ==> #[trigger] c.internal_memory@[i] == (
                        CacheMemory { data: fill, tag: 0u32 })
                },
                Err(e) => {
                    &&& e == MemoryError::ConfigurationInvalid
                    &&& !direct_geometry_ok(cache_size, line_size, address_size)
                },
            },
    {
        if !direct_geometry_valid(cache_size, line_size, address_size) {
            return Err(MemoryError::ConfigurationInvalid);
        }
        let slots: u32 = cache_size / 8;
        let mut internal_memory: Vec<CacheMemory<T, u32>> = Vec::new();
        let mut i: u32 = 0;
        while i < slots
            invariant
                i <= slots,
                internal_memory@.len() == i,
                forall|j: int|
                    0 <= j < i ==> #[trigger] internal_memory@[j] == (CacheMemory {
                        data: fill,
                        tag: 0u32,
                    }),
            decreases slots - i,
        {
            internal_memory.push(CacheMemory { data: fill, tag: 0 });
            i += 1;
        }
        Ok(CacheDirect { internal_memory, cache_size, line_size, address_size })
    }

    /// The mask of the tag field.
    pub fn calc_tag_mask(&self) -> (r: u32)
        requires
            self.geometry_ok(),
        ensures
            r == self.tag_mask(),
    {
        low_bits(self.address_size) ^ (self.calc_line_mask() | self.calc_word_mask())
    }

    /// The mask of the line field.
    pub fn calc_line_mask(&self) -> (r: u32)
        requires
            self.geometry_ok(),
        ensures
            r == line_mask(self.cache_size, self.line_size),
    {
        proof {
            lemma_bit_width_bound(word_mask(self.line_size));
        }
        (self.cache_positions() / self.line_size - 1) << num_bits(self.calc_word_mask())
    }

    /// The mask of the word field.
    pub fn calc_word_mask(&self) -> (r: u32)
        requires
            self.line_size >= 1,
        ensures
            r == word_mask(self.line_size),
    {
        self.line_size - 1
    }

    /// The number of slots.
    pub fn cache_positions(&self) -> (r: u32)
        ensures
            r == positions(self.cache_size),
    {
        self.cache_size / 8
    }

    /// The index of the slot of `pos`.
    pub fn slot_index(&self, pos: u32) -> (r: usize)
        requires
            self.geometry_ok(),
        ensures
            r == self.slot_of(pos),
            r < positions(self.cache_size),
    {
        proof {
            self.lemma_slot_in_range(pos);
        }
        let lines: u32 = self.cache_positions() / self.line_size;
        let line: u32 = extract(pos, self.calc_line_mask()) % lines;
        let word: u32 = pos & self.calc_word_mask();
        assert(line * self.line_size >= 0 && line * self.line_size <= self.slot_of(pos)
            - word) by (nonlinear_arith)
            requires
                line >= 0,
                self.line_size > 0,
                self.slot_of(pos) == line * self.line_size + word,
        ;
        (line * self.line_size + word) as usize
    }
}

impl<T: Copy> Accessable for CacheDirect<T> {
    type Address = u32;

    type Data = T;

    /// The geometry is accepted and there is one slot for each position.
    open spec fn valid(&self) -> bool {
        &&& self.geometry_ok()
        &&& self.internal_memory@.len() == positions(self.cache_size)
    }

    /// A hit where the slot of `pos` carries the tag of `pos`, else a miss.
    open spec fn peek(&self, pos: u32) -> Option<T> {
        let slot = self.internal_memory@[self.slot_of(pos)];
        if slot.tag == self.tag_of(pos) {
            Some(slot.data)
        } else {
            None
        }
    }

    /// A read changes nothing.
    open spec fn after_get(&self, pos: u32, post: &Self) -> bool {
        *post == *self
    }

    /// A write always succeeds and overwrites the slot of `pos`, whatever it
    /// held, with `data` under the tag of `pos`.
    open spec fn after_set(&self, pos: u32, data: T, post: &Self, r: Result<(), MemoryError>) -> bool {
        &&& r is Ok
        &&& post.cache_size == self.cache_size
        &&& post.line_size == self.line_size
        &&& post.address_size == self.address_size
        &&& post.internal_memory@ == self.internal_memory@.update(
            self.slot_of(pos),
            CacheMemory { data, tag: self.tag_of(pos) },
        )
    }

    fn get(&mut self, pos: u32) -> (r: Option<T>) {
        let index = self.slot_index(pos);
        let tag = extract(pos, self.calc_tag_mask());
        let slot = &self.internal_memory[index];
        if slot.tag == tag {
            Some(slot.data)
        } else {
            None
        }
    }

    fn set(&mut self, pos: u32, data: T) -> (r: Result<(), MemoryError>) {
        let index = self.slot_index(pos);
        let tag = extract(pos, self.calc_tag_mask());
        self.internal_memory.set(index, CacheMemory { data, tag });
        Ok(())
    }

    proof fn lemma_read_repeats(pre: &Self, pos: u32, post: &Self) {
    }

    proof fn lemma_write_keeps_valid(
        pre: &Self,
        pos: u32,
        data: T,
        post: &Self,
        r: Result<(), MemoryError>,
    ) {
        pre.lemma_slot_in_range(pos);
    }

    proof fn lemma_write_after_miss(
        pre: &Self,
        pos: u32,
        data: T,
        post: &Self,
        r: Result<(), MemoryError>,
    ) {
        pre.lemma_slot_in_range(pos);
    }
}

/// What was written is read back: after a write of `data` at `pos`, a read of
/// `pos` is a hit and gives `data`.
pub proof fn lemma_direct_set_then_get<T: Copy>(
    pre: &CacheDirect<T>,
    pos: u32,
    data: T,
    post: &CacheDirect<T>,
    r: Result<(), MemoryError>,
)
    requires
        pre.valid(),
        pre.after_set(pos, data, post, r),
    ensures
        post.peek(pos) == Some(data),
{
    pre.lemma_slot_in_range(pos);
}

/// Aliasing evicts: where two addresses share a slot and differ in their tags,
/// a write at the first followed by a write at the second leaves the first
/// address a miss.
pub proof fn lemma_direct_conflict_evicts<T: Copy>(
    pre: &CacheDirect<T>,
    first: u32,
    first_data: T,
    mid: &CacheDirect<T>,
    r1: Result<(), MemoryError>,
    second: u32,
    second_data: T,
    post: &CacheDirect<T>,
    r2: Result<(), MemoryError>,
)
    requires
        pre.valid(),
        pre.slot_of(first) == pre.slot_of(second),
        pre.tag_of(first) != pre.tag_of(second),
        pre.after_set(first, first_data, mid, r1),
        mid.after_set(second, second_data, post, r2),
    ensures
        post.peek(first) is None,
        post.peek(second) == Some(second_data),
{
    pre.lemma_slot_in_range(first);
}

/// Two addresses cannot share a slot in peace: where two different addresses
/// of `address_size` bits map to one slot, a write at the first followed by a
/// write at the second leaves the first a miss.
pub proof fn lemma_direct_alias_evicts<T: Copy>(
    pre: &CacheDirect<T>,
    first: u32,
    first_data: T,
    mid: &CacheDirect<T>,
    r1: Result<(), MemoryError>,
    second: u32,
    second_data: T,
    post: &CacheDirect<T>,
    r2: Result<(), MemoryError>,
)
    requires
        pre.valid(),
        first <= low_mask(pre.address_size),
        second <= low_mask(pre.address_size),
        first != second,
        pre.slot_of(first) == pre.slot_of(second),
        pre.after_set(first, first_data, mid, r1),
        mid.after_set(second, second_data, post, r2),
    ensures
        post.peek(first) is None,
{
    if pre.tag_of(first) == pre.tag_of(second) {
        pre.lemma_slot_and_tag_name_the_address(first, second);
    }
    lemma_direct_conflict_evicts(
        pre,
        first,
        first_data,
        mid,
        r1,
        second,
        second_data,
        post,
        r2,
    );
}

/// A write disturbs one slot only: an address that lives in another slot
/// reads as it did before.
pub proof fn lemma_direct_set_keeps_others<T: Copy>(
    pre: &CacheDirect<T>,
    pos: u32,
    data: T,
    post: &CacheDirect<T>,
    r: Result<(), MemoryError>,
    other: u32,
)
    requires
        pre.valid(),
        pre.after_set(pos, data, post, r),
        pre.slot_of(other) != pre.slot_of(pos),
    ensures
        post.peek(other) == pre.peek(other),
{
    pre.lemma_slot_in_range(pos);
    pre.lemma_slot_in_range(other);
}

} // verus!
