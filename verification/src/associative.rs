use vstd::prelude::*;
use rand::distributions::{Distribution, Uniform};
use rand::rngs::StdRng;
use rand::SeedableRng;
use crate::access::{Accessable, CacheMemory};
use crate::address::{extract, field, is_power_of_two, low_bits, low_mask, positions, word_mask};
use crate::error::MemoryError;

verus! {

/// rand's standard generator. Nothing is known of what it holds.
#[verifier::external_type_specification]
#[verifier::external_body]
pub struct ExStdRng(StdRng);

/// Calls rand's `SeedableRng::seed_from_u64` for `StdRng`. Nothing is claimed
/// of the generator that comes back.
#[verifier::external_body]
fn seeded_rng(seed: u64) -> StdRng {
    StdRng::seed_from_u64(seed)
}

/// Calls rand's `Uniform::from` on the range `0..bound` and `sample` on the
/// result. rand refuses an empty range, so `bound` is positive. Claimed: the
/// draw lies in the range, and nothing more of which value it is.
#[verifier::external_body]
fn draw_below(rng: &mut StdRng, bound: u32) -> (r: u32)
    requires
        bound > 0,
    ensures
        r < bound,
{
    Uniform::from(0..bound).sample(rng)
}

/// The geometries that an associative cache accepts: the line size is a power
/// of two, the address has at most 32 bits and room for the word field, and
/// there are at least two slots, so that a replacement can be drawn.
pub open spec fn associative_geometry_ok(cache_size: u32, line_size: u32, address_size: u32) -> bool {
    &&& is_power_of_two(line_size)
    &&& address_size <= 32
    &&& positions(cache_size) >= 2
    &&& word_mask(line_size) <= low_mask(address_size)
}

/// Decides `associative_geometry_ok`.
pub fn associative_geometry_valid(cache_size: u32, line_size: u32, address_size: u32) -> (b: bool)
    ensures
        b == associative_geometry_ok(cache_size, line_size, address_size),
{
    if line_size == 0 || address_size > 32 {
        return false;
    }
    line_size & (line_size - 1) == 0 && cache_size / 8 >= 2 && line_size - 1 <= low_bits(
        address_size,
    )
}

/// Whether some slot of `mem` carries `tag`.
pub open spec fn holds_tag<T>(mem: Seq<CacheMemory<T, u32>>, tag: u32) -> bool {
    exists|i: int| 0 <= i < mem.len() && (#[trigger] mem[i]).tag == tag
}

/// Whether slot `i` of `mem` is the first, in scan order, that carries `tag`.
pub open spec fn is_first_match<T>(mem: Seq<CacheMemory<T, u32>>, tag: u32, i: int) -> bool {
    &&& 0 <= i < mem.len()
    &&& mem[i].tag == tag
    &&& forall|j: int| 0 <= j < i ==> (#[trigger] mem[j]).tag != tag
}

/// The value found by a scan of `mem` for `tag`: that of the first slot that
/// carries the tag, or nothing if there is none.
pub open spec fn scan<T>(mem: Seq<CacheMemory<T, u32>>, tag: u32) -> Option<T> {
    if holds_tag(mem, tag) {
        Some(mem[choose|i: int| is_first_match(mem, tag, i)].data)
    } else {
        None
    }
}

/// A slot that is the first match is the one that a scan finds.
pub proof fn lemma_scan_finds_first<T>(mem: Seq<CacheMemory<T, u32>>, tag: u32, i: int)
    requires
        is_first_match(mem, tag, i),
    ensures
        scan(mem, tag) == Some(mem[i].data),
{
    assert(holds_tag(mem, tag));
    let k = choose|k: int| is_first_match(mem, tag, k);
    assert(is_first_match(mem, tag, k));
    if k < i {
        assert(mem[k].tag != tag);
    }
    if i < k {
        assert(mem[i].tag != tag);
    }
}

/// A scan answers only from a slot that carries the tag: a hit comes from the
/// first such slot, and a miss means that no slot carries it.
pub proof fn lemma_scan_sound<T>(mem: Seq<CacheMemory<T, u32>>, tag: u32)
    ensures
        scan(mem, tag) is Some <==> holds_tag(mem, tag),
        scan(mem, tag) is Some ==> exists|i: int|
            #![trigger mem[i]]
            is_first_match(mem, tag, i) && scan(mem, tag) == Some(mem[i].data),
        scan(mem, tag) is None ==> forall|i: int|
            0 <= i < mem.len() ==> (#[trigger] mem[i]).tag != tag,
{
    if holds_tag(mem, tag) {
        let w = choose|i: int| 0 <= i < mem.len() && (#[trigger] mem[i]).tag == tag;
        let f = lemma_first_match_exists(mem, tag, w);
        lemma_scan_finds_first(mem, tag, f);
    }
}

/// Below any slot that carries the tag there is a first one.
pub proof fn lemma_first_match_exists<T>(mem: Seq<CacheMemory<T, u32>>, tag: u32, w: int) -> (f:
    int)
    requires
        0 <= w < mem.len(),
        mem[w].tag == tag,
    ensures
        is_first_match(mem, tag, f),
        f <= w,
    decreases w,
{
    if exists|j: int| 0 <= j < w && (#[trigger] mem[j]).tag == tag {
        let j = choose|j: int| 0 <= j < w && (#[trigger] mem[j]).tag == tag;
        lemma_first_match_exists(mem, tag, j)
    } else {
        w
    }
}

/// A fully associative cache with random replacement: any address may live in
/// any slot. A read scans the slots for the tag of the address; a write
/// replaces a slot drawn at random.
///
/// The tag is the address without its word field, so the words of one line
/// share a tag, and a read of one of them is answered from the first slot
/// that holds any of them.
pub struct CacheAssociative<T> {
    pub internal_memory: Vec<CacheMemory<T, u32>>,
    pub cache_size: u32,
    pub line_size: u32,
    pub address_size: u32,
    pub rng: StdRng,
}

impl<T: Copy> CacheAssociative<T> {
    /// Whether the geometry is one that an associative cache accepts.
    pub open spec fn geometry_ok(&self) -> bool {
        associative_geometry_ok(self.cache_size, self.line_size, self.address_size)
    }

    /// The mask of the tag field: the bits of the address above the word
    /// field. There is no line field.
    pub open spec fn tag_mask(&self) -> u32 {
        low_mask(self.address_size) ^ word_mask(self.line_size)
    }

    /// The tag field of `pos`.
    pub open spec fn tag_of(&self, pos: u32) -> u32 {
        field(pos, self.tag_mask())
    }

    /// Whether `post` is this cache with slot `slot` overwritten by `data`
    /// under the tag of `pos`, and every other slot and the geometry as they
    /// were.
    pub open spec fn placed(&self, slot: int, pos: u32, data: T, post: &Self) -> bool {
        &&& post.cache_size == self.cache_size
        &&& post.line_size == self.line_size
        &&& post.address_size == self.address_size
        &&& post.internal_memory@ == self.internal_memory@.update(
            slot,
            CacheMemory { data, tag: self.tag_of(pos) },
        )
    }

    /// Makes a cache of the given geometry, every slot holding `fill` under
    /// tag 0, with a replacement generator seeded by `seed`. Until it is
    /// overwritten, such a slot answers reads of the addresses with tag 0.
    pub fn new(cache_size: u32, line_size: u32, address_size: u32, fill: T, seed: u64) -> (r:
        Result<Self, MemoryError>)
        ensures
            match r {
                Ok(c) => {
                    &&& associative_geometry_ok(cache_size, line_size, address_size)
                    &&& c.valid()
                    &&& c.cache_size == cache_size
                    &&& c.line_size == line_size
                    &&& c.address_size == address_size
                    &&& forall|i: int|
                        0 <= i < positions(cache_size) ==> #[trigger] c.internal_memory@[i] == (
                        CacheMemory { data: fill, tag: 0u32 })
                },
                Err(e) => {
                    &&& e == MemoryError::ConfigurationInvalid
                    &&& !associative_geometry_ok(cache_size, line_size, address_size)
                },
            },
    {
        if !associative_geometry_valid(cache_size, line_size, address_size) {
            return Err(MemoryError::ConfigurationInvalid);
        }
        let slots: u32 = cache_size / 8;
        let mut internal_memory: Vec<CacheMemory<T, u32>> = Vec::new();
        let mut i: u32 = 0;
        while i < slots
            invariant
                i <= slots,
                internal_memory@.len() == i,
                forall|j: int|
                    0 <= j < i ==> #[trigger] internal_memory@[j] == (CacheMemory {
                        data: fill,
                        tag: 0u32,
                    }),
            decreases slots - i,
        {
            internal_memory.push(CacheMemory { data: fill, tag: 0 });
            i += 1;
        }
        Ok(
            CacheAssociative {
                internal_memory,
                cache_size,
                line_size,
                address_size,
                rng: seeded_rng(seed),
            },
        )
    }

    /// The mask of the tag field.
    pub fn calc_tag_mask(&self) -> (r: u32)
        requires
            self.line_size >= 1,
            self.address_size <= 32,
        ensures
            r == self.tag_mask(),
    {
        low_bits(self.address_size) ^ self.calc_word_mask()
    }

    /// The mask of the word field.
    pub fn calc_word_mask(&self) -> (r: u32)
        requires
            self.line_size >= 1,
        ensures
            r == word_mask(self.line_size),
    {
        self.line_size - 1
    }

    /// The number of slots.
    pub fn cache_positions(&self) -> (r: u32)
        ensures
            r == positions(self.cache_size),
    {
        self.cache_size / 8
    }

    /// Overwrites slot `slot`, whatever it held, with `data` under the tag of
    /// `pos`. This is the replacement step of a write, with the slot chosen by
    /// the caller.
    pub fn place(&mut self, slot: u32, pos: u32, data: T)
        requires
            old(self).valid(),
            slot < positions(old(self).cache_size),
        ensures
            final(self).valid(),
            old(self).placed(slot as int, pos, data, final(self)),
    {
        let tag = extract(pos, self.calc_tag_mask());
        self.internal_memory.set(slot as usize, CacheMemory { data, tag });
    }
}

impl<T: Copy> Accessable for CacheAssociative<T> {
    type Address = u32;

    type Data = T;

    /// The geometry is accepted and there is one slot for each position.
    open spec fn valid(&self) -> bool {
        &&& self.geometry_ok()
        &&& self.internal_memory@.len() == positions(self.cache_size)
    }

    /// The value of the first slot, in scan order, that carries the tag of
    /// `pos`; a miss where no slot carries it.
    open spec fn peek(&self, pos: u32) -> Option<T> {
        scan(self.internal_memory@, self.tag_of(pos))
    }

    /// A read changes nothing.
    open spec fn after_get(&self, pos: u32, post: &Self) -> bool {
        *post == *self
    }

    /// A write always succeeds and overwrites one slot, any but the last,
    /// with `data` under the tag of `pos`. It does not look for the tag first:
    /// the slot may have held another live tag, and the tag may now stand in
    /// two slots.
    open spec fn after_set(&self, pos: u32, data: T, post: &Self, r: Result<(), MemoryError>) -> bool {
        &&& r is Ok
        &&& exists|slot: int|
            0 <= slot < positions(self.cache_size) - 1 && #[trigger] self.placed(
                slot,
                pos,
                data,
                post,
            )
    }

    fn get(&mut self, pos: u32) -> (r: Option<T>) {
        let tag = extract(pos, self.calc_tag_mask());
        let mut i: usize = 0;
        while i < self.internal_memory.len()
            invariant
                *self == *old(self),
                self.valid(),
                tag == self.tag_of(pos),
                i <= self.internal_memory@.len(),
                forall|j: int| 0 <= j < i ==> (#[trigger] self.internal_memory@[j]).tag != tag,
            decreases self.internal_memory@.len() - i,
        {
            let slot = &self.internal_memory[i];
            if slot.tag == tag {
                proof {
                    lemma_scan_finds_first(self.internal_memory@, tag, i as int);
                }
                return Some(slot.data);
            }
            i += 1;
        }
        None
    }

    fn set(&mut self, pos: u32, data: T) -> (r: Result<(), MemoryError>) {
        let bound: u32 = self.cache_positions() - 1;
        let slot = draw_below(&mut self.rng, bound);
        self.place(slot, pos, data);
        assert(old(self).placed(slot as int, pos, data, self));
        Ok(())
    }

    proof fn lemma_read_repeats(pre: &Self, pos: u32, post: &Self) {
    }

    proof fn lemma_write_keeps_valid(
        pre: &Self,
        pos: u32,
        data: T,
        post: &Self,
        r: Result<(), MemoryError>,
    ) {
    }

    proof fn lemma_write_after_miss(
        pre: &Self,
        pos: u32,
        data: T,
        post: &Self,
        r: Result<(), MemoryError>,
    ) {
        let tag = pre.tag_of(pos);
        let slot = choose|slot: int|
            0 <= slot < positions(pre.cache_size) - 1 && #[trigger] pre.placed(
                slot,
                pos,
                data,
                post,
            );
        assert forall|j: int| 0 <= j < slot implies (#[trigger] post.internal_memory@[j]).tag
            != tag by {
            assert(pre.internal_memory@[j].tag != tag);
        }
        lemma_scan_finds_first(post.internal_memory@, tag, slot);
    }
}

/// The fields of an associative cache part the address: in an accepted
/// geometry the tag mask shares no bit with the word mask and makes up, with
/// it, exactly the low `address_size` bits.
pub proof fn lemma_associative_masks_part_the_address<T: Copy>(cache: &CacheAssociative<T>)
    requires
        cache.geometry_ok(),
    ensures
        cache.tag_mask() & word_mask(cache.line_size) == 0,
        cache.tag_mask() | word_mask(cache.line_size) == low_mask(cache.address_size),
{
    let wm = word_mask(cache.line_size);
    let low = low_mask(cache.address_size);
    if cache.address_size == 0 {
        assert((low ^ wm) & wm == 0 && (low ^ wm) | wm == low) by (bit_vector)
            requires
                low == 0,
                wm <= low,
        ;
    } else {
        let shift = (32 - cache.address_size) as u32;
        assert((low ^ wm) & wm == 0 && (low ^ wm) | wm == low) by (bit_vector)
            requires
                shift < 32,
                low == 0xFFFF_FFFFu32 >> shift,
                wm <= low,
        ;
    }
}

/// A read never answers under a foreign tag: in every state of the cache, a
/// hit for `pos` gives the value of a slot that carries the tag of `pos`, the
/// first such slot in scan order, and a miss means that no slot carries that
/// tag.
pub proof fn lemma_associative_hit_has_tag<T: Copy>(cache: &CacheAssociative<T>, pos: u32)
    ensures
        cache.peek(pos) is Some <==> holds_tag(cache.internal_memory@, cache.tag_of(pos)),
        cache.peek(pos) is Some ==> exists|i: int|
            #![trigger cache.internal_memory@[i]]
            is_first_match(cache.internal_memory@, cache.tag_of(pos), i) && cache.peek(pos)
                == Some(cache.internal_memory@[i].data),
{
    lemma_scan_sound(cache.internal_memory@, cache.tag_of(pos));
}

} // verus!
