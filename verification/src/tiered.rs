use vstd::prelude::*;
use crate::access::Accessable;
use crate::associative::CacheAssociative;
use crate::direct::CacheDirect;
use crate::error::MemoryError;

verus! {

/// A two-level memory: a cache in front of a backing store.
///
/// Reads allocate: a read that misses the cache is served by the store, and
/// the value is written into the cache. Writes go to the store alone; the
/// cache is neither updated nor invalidated, so an address that is resident in
/// the cache keeps reading as its cached value after a write.
pub struct Memory<I, C> {
    pub internal_memory: I,
    pub cache: C,
}

impl<I, C> Memory<I, C> where
    I: Accessable<Address = u32, Data = u32>,
    C: Accessable<Address = u32, Data = u32>,
 {
    /// Puts `cache` in front of `internal_memory`.
    pub fn new(internal_memory: I, cache: C) -> (r: Self)
        requires
            internal_memory.valid(),
            cache.valid(),
        ensures
            r.valid(),
            r.internal_memory == internal_memory,
            r.cache == cache,
    {
        Memory { internal_memory, cache }
    }

    /// Whether a read of `pos` may leave the memory in `post`, `seen` being
    /// the cache as the lookup left it. On a hit nothing else happens. On a
    /// miss the store is read; a value found there is written into the cache
    /// at `pos`, whatever the cache answers to that write.
    pub open spec fn read_through(&self, pos: u32, seen: &C, post: &Self) -> bool {
        &&& self.cache.after_get(pos, seen)
        &&& match self.cache.peek(pos) {
            Some(_) => post.cache == *seen && post.internal_memory == self.internal_memory,
            None => {
                &&& self.internal_memory.after_get(pos, &post.internal_memory)
                &&& match self.internal_memory.peek(pos) {
                    Some(found) => exists|r: Result<(), MemoryError>| #[trigger]
                        seen.after_set(pos, found, &post.cache, r),
                    None => post.cache == *seen,
                }
            },
        }
    }
}

impl<I, C> Accessable for Memory<I, C> where
    I: Accessable<Address = u32, Data = u32>,
    C: Accessable<Address = u32, Data = u32>,
 {
    type Address = u32;

    type Data = u32;

    /// Both levels keep their invariants.
    open spec fn valid(&self) -> bool {
        self.internal_memory.valid() && self.cache.valid()
    }

    /// What the cache holds for `pos`; on a miss, what the store holds.
    open spec fn peek(&self, pos: u32) -> Option<u32> {
        match self.cache.peek(pos) {
            Some(data) => Some(data),
            None => self.internal_memory.peek(pos),
        }
    }

    /// A read goes through the cache to the store, and allocates on a miss.
    open spec fn after_get(&self, pos: u32, post: &Self) -> bool {
        exists|seen: C| #[trigger] self.read_through(pos, &seen, post)
    }

    /// A write goes to the store alone, whose answer is handed on as it is;
    /// the cache stays as it was.
    open spec fn after_set(&self, pos: u32, data: u32, post: &Self, r: Result<(), MemoryError>) -> bool {
        &&& self.internal_memory.after_set(pos, data, &post.internal_memory, r)
        &&& post.cache == self.cache
    }

    fn get(&mut self, pos: u32) -> (r: Option<u32>) {
        match self.cache.get(pos) {
            Some(data) => {
                assert(old(self).read_through(pos, &self.cache, self));
                Some(data)
            },
            None => {
                let ghost seen = self.cache;
                match self.internal_memory.get(pos) {
                    Some(found) => {
                        let answer = self.cache.set(pos, found);
                        assert(seen.after_set(pos, found, &self.cache, answer));
                        assert(old(self).read_through(pos, &seen, self));
                        Some(found)
                    },
                    None => {
                        assert(old(self).read_through(pos, &seen, self));
                        None
                    },
                }
            },
        }
    }

    fn set(&mut self, pos: u32, data: u32) -> (r: Result<(), MemoryError>) {
        self.internal_memory.set(pos, data)
    }

    proof fn lemma_read_repeats(pre: &Self, pos: u32, post: &Self) {
        let seen = choose|seen: C| #[trigger] pre.read_through(pos, &seen, post);
        C::lemma_read_repeats(&pre.cache, pos, &seen);
        match pre.cache.peek(pos) {
            Some(_) => {},
            None => {
                I::lemma_read_repeats(&pre.internal_memory, pos, &post.internal_memory);
                match pre.internal_memory.peek(pos) {
                    Some(found) => {
                        let r = choose|r: Result<(), MemoryError>| #[trigger]
                            seen.after_set(pos, found, &post.cache, r);
                        C::lemma_write_keeps_valid(&seen, pos, found, &post.cache, r);
                        C::lemma_write_after_miss(&seen, pos, found, &post.cache, r);
                    },
                    None => {},
                }
            },
        }
    }

    proof fn lemma_write_keeps_valid(
        pre: &Self,
        pos: u32,
        data: u32,
        post: &Self,
        r: Result<(), MemoryError>,
    ) {
        I::lemma_write_keeps_valid(&pre.internal_memory, pos, data, &post.internal_memory, r);
    }

    proof fn lemma_write_after_miss(
        pre: &Self,
        pos: u32,
        data: u32,
        post: &Self,
        r: Result<(), MemoryError>,
    ) {
        I::lemma_write_after_miss(&pre.internal_memory, pos, data, &post.internal_memory, r);
    }
}

/// Writes do not reach the cache: where `pos` is resident in the cache, a
/// write at `pos` changes the store alone, and the memory goes on reading
/// `pos` as the cached value, not as the value written.
pub proof fn lemma_resident_read_is_stale<I, C>(
    pre: &Memory<I, C>,
    pos: u32,
    data: u32,
    post: &Memory<I, C>,
    r: Result<(), MemoryError>,
) where I: Accessable<Address = u32, Data = u32>, C: Accessable<Address = u32, Data = u32>
    requires
        pre.valid(),
        pre.cache.peek(pos) is Some,
        pre.after_set(pos, data, post, r),
    ensures
        post.peek(pos) == pre.cache.peek(pos),
        post.peek(pos) == pre.peek(pos),
{
}

/// A write is lost on an address that was read before, behind a direct-mapped
/// cache: where a read of `pos` gave a value, and a write at `pos` follows,
/// the next read of `pos` gives the value of the first read again.
pub proof fn lemma_stale_after_read_direct<I>(
    pre: &Memory<I, CacheDirect<u32>>,
    pos: u32,
    mid: &Memory<I, CacheDirect<u32>>,
    data: u32,
    post: &Memory<I, CacheDirect<u32>>,
    r: Result<(), MemoryError>,
) where I: Accessable<Address = u32, Data = u32>
    requires
        pre.valid(),
        pre.peek(pos) is Some,
        pre.after_get(pos, mid),
        mid.after_set(pos, data, post, r),
    ensures
        post.peek(pos) == pre.peek(pos),
{
    Memory::<I, CacheDirect<u32>>::lemma_read_repeats(pre, pos, mid);
    let seen = choose|seen: CacheDirect<u32>| #[trigger] pre.read_through(pos, &seen, mid);
    if pre.cache.peek(pos) is None {
        let found = pre.internal_memory.peek(pos)->Some_0;
        let w = choose|w: Result<(), MemoryError>| #[trigger]
            seen.after_set(pos, found, &mid.cache, w);
        CacheDirect::<u32>::lemma_write_after_miss(&seen, pos, found, &mid.cache, w);
    }
}

/// A write is lost on an address that was read before, behind an associative
/// cache: where a read of `pos` gave a value, and a write at `pos` follows,
/// the next read of `pos` gives the value of the first read again.
pub proof fn lemma_stale_after_read_associative<I>(
    pre: &Memory<I, CacheAssociative<u32>>,
    pos: u32,
    mid: &Memory<I, CacheAssociative<u32>>,
    data: u32,
    post: &Memory<I, CacheAssociative<u32>>,
    r: Result<(), MemoryError>,
) where I: Accessable<Address = u32, Data = u32>
    requires
        pre.valid(),
        pre.peek(pos) is Some,
        pre.after_get(pos, mid),
        mid.after_set(pos, data, post, r),
    ensures
        post.peek(pos) == pre.peek(pos),
{
    Memory::<I, CacheAssociative<u32>>::lemma_read_repeats(pre, pos, mid);
    let seen = choose|seen: CacheAssociative<u32>| #[trigger]
        pre.read_through(pos, &seen, mid);
    if pre.cache.peek(pos) is None {
        let found = pre.internal_memory.peek(pos)->Some_0;
        let w = choose|w: Result<(), MemoryError>| #[trigger]
            seen.after_set(pos, found, &mid.cache, w);
        CacheAssociative::<u32>::lemma_write_after_miss(&seen, pos, found, &mid.cache, w);
    }
}

} // verus!
