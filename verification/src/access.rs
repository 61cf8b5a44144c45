use vstd::prelude::*;
use crate::error::MemoryError;

verus! {

/// One cache slot: a stored value and the tag of the address it was stored for.
pub struct CacheMemory<T, U> {
    pub data: T,
    pub tag: U,
}

/// The capability shared by every memory of the model: read a value at an
/// address, write a value at an address.
///
/// An implementation describes itself by four specification functions; the
/// contracts of `get` and `set` are stated over them, and three laws, which
/// each implementation proves, tie them together.
pub trait Accessable: Sized {
    type Address;

    type Data: Copy;

    /// The invariant of the memory.
    spec fn valid(&self) -> bool;

    /// The value that a read of `pos` returns.
    spec fn peek(&self, pos: Self::Address) -> Option<Self::Data>;

    /// Whether `post` is a state in which a read of `pos` may leave the memory.
    spec fn after_get(&self, pos: Self::Address, post: &Self) -> bool;

    /// Whether a write of `data` at `pos` may leave the memory in `post` and
    /// answer `r`.
    spec fn after_set(
        &self,
        pos: Self::Address,
        data: Self::Data,
        post: &Self,
        r: Result<(), MemoryError>,
    ) -> bool;

    /// Reads the value at `pos`, if the memory holds one.
    fn get(&mut self, pos: Self::Address) -> (r: Option<Self::Data>)
        requires
            old(self).valid(),
        ensures
            final(self).valid(),
            r == old(self).peek(pos),
            old(self).after_get(pos, final(self)),
    ;

    /// Writes `data` at `pos`.
    fn set(&mut self, pos: Self::Address, data: Self::Data) -> (r: Result<(), MemoryError>)
        requires
            old(self).valid(),
        ensures
            final(self).valid(),
            old(self).after_set(pos, data, final(self), r),
    ;

    /// Reading is repeatable: whatever state a read of `pos` leaves behind, a
    /// second read of `pos` gives the same answer.
    proof fn lemma_read_repeats(pre: &Self, pos: Self::Address, post: &Self)
        requires
            pre.valid(),
            pre.after_get(pos, post),
        ensures
            post.valid(),
            post.peek(pos) == pre.peek(pos),
    ;

    /// A write, accepted or refused, leaves a memory that keeps its invariant.
    proof fn lemma_write_keeps_valid(
        pre: &Self,
        pos: Self::Address,
        data: Self::Data,
        post: &Self,
        r: Result<(), MemoryError>,
    )
        requires
            pre.valid(),
            pre.after_set(pos, data, post, r),
        ensures
            post.valid(),
    ;

    /// A write after a miss: where `pos` reads as nothing, a write of `data`
    /// at `pos` makes it read as `data` if the write is accepted, and leaves
    /// it reading as nothing if the write is refused.
    proof fn lemma_write_after_miss(
        pre: &Self,
        pos: Self::Address,
        data: Self::Data,
        post: &Self,
        r: Result<(), MemoryError>,
    )
        requires
            pre.valid(),
            pre.peek(pos) is None,
            pre.after_set(pos, data, post, r),
        ensures
            post.peek(pos) == (if r is Ok {
                Some(data)
            } else {
                None
            }),
    ;
}

} // verus!
