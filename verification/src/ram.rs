use vstd::prelude::*;
use crate::access::Accessable;
use crate::error::MemoryError;

verus! {

/// The backing store: a flat array with one value for each address below its
/// size. It neither caches nor masks.
pub struct RAM<T> {
    internal_memory: Vec<T>,
    mem_size: u32,
}

impl<T: Copy> View for RAM<T> {
    type V = Seq<T>;

    /// The values of the store, by address.
    closed spec fn view(&self) -> Seq<T> {
        self.internal_memory@
    }
}

impl<T: Copy> RAM<T> {
    /// Makes a store of `mem_size` addresses, each holding `fill`.
    pub fn new(mem_size: u32, fill: T) -> (r: Self)
        ensures
            r.valid(),
            r@ == Seq::new(mem_size as nat, |i: int| fill),
    {
        let mut internal_memory: Vec<T> = Vec::new();
        let mut i: u32 = 0;
        while i < mem_size
            invariant
                i <= mem_size,
                internal_memory@ == Seq::new(i as nat, |j: int| fill),
            decreases mem_size - i,
        {
            internal_memory.push(fill);
            i += 1;
            assert(internal_memory@ =~= Seq::new(i as nat, |j: int| fill));
        }
        RAM { internal_memory, mem_size }
    }

    /// The number of addresses of the store.
    pub fn size(&self) -> (r: u32)
        requires
            self.valid(),
        ensures
            r == self@.len(),
    {
        self.mem_size
    }

    /// Reads the value at `pos`, and says so where `pos` lies outside the
    /// store.
    pub fn fetch(&self, pos: u32) -> (r: Result<T, MemoryError>)
        requires
            self.valid(),
        ensures
            pos < self@.len() ==> r == Ok::<T, MemoryError>(self@[pos as int]),
            pos >= self@.len() ==> r == Err::<T, MemoryError>(MemoryError::OutOfRange),
    {
        if pos < self.mem_size {
            Ok(self.internal_memory[pos as usize])
        } else {
            Err(MemoryError::OutOfRange)
        }
    }
}

impl<T: Copy> Accessable for RAM<T> {
    type Address = u32;

    type Data = T;

    /// The store holds as many values as its size says.
    closed spec fn valid(&self) -> bool {
        self.internal_memory@.len() == self.mem_size
    }

    /// The value at `pos`; nothing where `pos` lies outside the store.
    open spec fn peek(&self, pos: u32) -> Option<T> {
        if pos < self@.len() {
            Some(self@[pos as int])
        } else {
            None
        }
    }

    /// A read changes nothing.
    open spec fn after_get(&self, pos: u32, post: &Self) -> bool {
        *post == *self
    }

    /// Inside the store a write succeeds and replaces the value at `pos`, all
    /// others staying; outside it is refused as out of range and changes
    /// nothing.
    open spec fn after_set(&self, pos: u32, data: T, post: &Self, r: Result<(), MemoryError>) -> bool {
        &&& post.valid()
        &&& if pos < self@.len() {
            r is Ok && post@ == self@.update(pos as int, data)
        } else {
            r == Err::<(), MemoryError>(MemoryError::OutOfRange) && post@ == self@
        }
    }

    fn get(&mut self, pos: u32) -> (r: Option<T>) {
        match self.fetch(pos) {
            Ok(data) => Some(data),
            Err(_) => None,
        }
    }

    fn set(&mut self, pos: u32, data: T) -> (r: Result<(), MemoryError>) {
        if pos < self.mem_size {
            self.internal_memory.set(pos as usize, data);
            Ok(())
        } else {
            Err(MemoryError::OutOfRange)
        }
    }

    proof fn lemma_read_repeats(pre: &Self, pos: u32, post: &Self) {
    }

    proof fn lemma_write_keeps_valid(
        pre: &Self,
        pos: u32,
        data: T,
        post: &Self,
        r: Result<(), MemoryError>,
    ) {
    }

    proof fn lemma_write_after_miss(
        pre: &Self,
        pos: u32,
        data: T,
        post: &Self,
        r: Result<(), MemoryError>,
    ) {
    }
}

/// What was written is read back, and every other address keeps its value:
/// after a successful write of `data` at `pos`, the store reads `data` at
/// `pos` and, at any other address, what it read before.
pub proof fn lemma_ram_set_then_get<T: Copy>(
    pre: &RAM<T>,
    pos: u32,
    data: T,
    post: &RAM<T>,
    r: Result<(), MemoryError>,
    at: u32,
)
    requires
        pre.valid(),
        r is Ok,
        pre.after_set(pos, data, post, r),
    ensures
        post.peek(pos) == Some(data),
        at != pos ==> post.peek(at) == pre.peek(at),
{
}

/// An address at or beyond the size of the store is never served: a read of it
/// gives nothing, and a write to it is refused as out of range and leaves the
/// store as it was.
pub proof fn lemma_ram_out_of_range<T: Copy>(
    pre: &RAM<T>,
    pos: u32,
    data: T,
    post: &RAM<T>,
    r: Result<(), MemoryError>,
)
    requires
        pre.valid(),
        pos >= pre@.len(),
        pre.after_set(pos, data, post, r),
    ensures
        pre.peek(pos) is None,
        r == Err::<(), MemoryError>(MemoryError::OutOfRange),
        post@ == pre@,
{
}

} // verus!
