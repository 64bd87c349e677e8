//! The guest's memory as the host sees it: a set of regions, each reached
//! through the pointer that was handed out for it.
//!
//! A region has exactly one owner. Whoever receives a pointer owns the region
//! behind it; whoever passes the pointer to [`deallocate`] or to
//! [`Arena::reclaim`] gives the region up.
//!
//! The arena is a model of that memory, and as a model it records every live
//! region and its length. The guest's functions never consult that record.
//! To them, that a pointer is live and that a capacity is the right one are
//! preconditions, which nothing tests when the program runs: they learn the
//! size of a region from its header or from its terminator, as they must where
//! the memory is real. [`Arena::is_live`] and [`Arena::peek`] read the record
//! for a host that checks its own bookkeeping against it.
//!
//! The pointer 0 stands for no region: it is never handed out and never live.

use vstd::prelude::*;

verus! {

/// The address of a region, as it crosses the boundary.
pub type Pointer = usize;

/// The guest memory.
///
/// Its view maps every live pointer to the bytes of its region. The length of
/// those bytes is the capacity of the region.
pub struct Arena {
    slots: Vec<Option<Vec<u8>>>,
}

impl View for Arena {
    type V = Map<Pointer, Seq<u8>>;

    closed spec fn view(&self) -> Map<Pointer, Seq<u8>> {
        Map::new(
            |pointer: Pointer|
                pointer != 0 && pointer < self.slots@.len() && self.slots@[pointer as int] is Some,
            |pointer: Pointer| self.slots@[pointer as int]->0@,
        )
    }
}

/// True when `after` is `before` with one more region, of `size` bytes,
/// behind `pointer`. What the new region holds is left open, and every other
/// region is kept as it was.
pub open spec fn allocated(
    before: Map<Pointer, Seq<u8>>,
    pointer: Pointer,
    size: nat,
    after: Map<Pointer, Seq<u8>>,
) -> bool {
    &&& !before.dom().contains(pointer)
    &&& after.dom().contains(pointer)
    &&& after[pointer].len() == size
    &&& after.remove(pointer) == before
}

/// The bytes of `region` with `data` written over them from `offset` on.
pub open spec fn overwritten(region: Seq<u8>, offset: int, data: Seq<u8>) -> Seq<u8> {
    Seq::new(
        region.len(),
        |i: int|
            if offset <= i < offset + data.len() {
                data[i - offset]
            } else {
                region[i]
            },
    )
}

impl Arena {
    /// An arena without any region.
    pub fn new() -> (arena: Arena)
        ensures
            arena@ == Map::<Pointer, Seq<u8>>::empty(),
    {
        let arena = Arena { slots: Vec::new() };
        assert(arena@ =~= Map::<Pointer, Seq<u8>>::empty());
        arena
    }

    /// The pointer 0 is never live.
    pub proof fn null_is_dead(&self)
        ensures
            !self@.dom().contains(0),
    {
    }

    /// Hands a buffer over to the arena. The buffer becomes a region of its
    /// own, and the caller owns the pointer that is returned.
    pub fn place(&mut self, region: Vec<u8>) -> (pointer: Pointer)
        ensures
            pointer != 0,
            !old(self)@.dom().contains(pointer),
            final(self)@ == old(self)@.insert(pointer, region@),
    {
        if self.slots.len() == 0 {
            // The slot of the pointer 0, which is never handed out.
            self.slots.push(None);
            assert(self@ =~= old(self)@);
        }
        let pointer: Pointer = self.slots.len();
        self.slots.push(Some(region));
        assert(self@ =~= old(self)@.insert(pointer, region@));
        pointer
    }

    /// Takes a region back out of the arena as a buffer, whole. The pointer is
    /// dead afterwards.
    pub fn reclaim(&mut self, pointer: Pointer) -> (region: Vec<u8>)
        requires
            old(self)@.dom().contains(pointer),
        ensures
            region@ == old(self)@[pointer],
            final(self)@ == old(self)@.remove(pointer),
    {
        let taken = self.slots[pointer].take();
        assert(self@ =~= old(self)@.remove(pointer));
        taken.unwrap()
    }

    /// Lends the bytes of a live region, whole. The region stays where it is
    /// and stays with its owner. Like [`Arena::is_live`], this reads the
    /// model's record: the length of what is lent is the capacity.
    pub fn peek(&self, pointer: Pointer) -> (region: &[u8])
        requires
            self@.dom().contains(pointer),
        ensures
            region@ == self@[pointer],
    {
        self.slots[pointer].as_ref().unwrap().as_slice()
    }

    /// Copies `len` bytes out of a live region, from `offset` on. The region
    /// stays where it is and stays with its owner.
    pub fn read(&self, pointer: Pointer, offset: usize, len: usize) -> (data: Vec<u8>)
        requires
            self@.dom().contains(pointer),
            offset + len <= self@[pointer].len(),
        ensures
            data@ == self@[pointer].subrange(offset as int, offset + len),
    {
        let region = self.slots[pointer].as_ref().unwrap();
        let mut data: Vec<u8> = Vec::with_capacity(len);
        let mut i: usize = 0;
        while i < len
            invariant
                i <= len,
                offset + len <= region.len(),
                data@ == region@.subrange(offset as int, offset + i),
            decreases len - i,
        {
            data.push(region[offset + i]);
            i += 1;
            assert(data@ =~= region@.subrange(offset as int, offset + i));
        }
        data
    }

    /// Writes `data` into a live region, from `offset` on. No other byte of
    /// the arena changes.
    pub fn write(&mut self, pointer: Pointer, offset: usize, data: &[u8])
        requires
            old(self)@.dom().contains(pointer),
            offset + data@.len() <= old(self)@[pointer].len(),
        ensures
            final(self)@ == old(self)@.insert(
                pointer,
                overwritten(old(self)@[pointer], offset as int, data@),
            ),
    {
        let mut region = self.slots[pointer].take().unwrap();
        let ghost before = region@;
        let mut i: usize = 0;
        while i < data.len()
            invariant
                i <= data@.len(),
                offset + data@.len() <= region.len(),
                region@ == overwritten(before, offset as int, data@.subrange(0, i as int)),
            decreases data@.len() - i,
        {
            region[offset + i] = data[i];
            i += 1;
            assert(region@ =~= overwritten(before, offset as int, data@.subrange(0, i as int)));
        }
        assert(data@.subrange(0, i as int) =~= data@);
        self.slots[pointer] = Some(region);
        assert(self@ =~= old(self)@.insert(
            pointer,
            overwritten(old(self)@[pointer], offset as int, data@),
        ));
    }

    /// Tells whether a pointer is live. The guest's functions never ask: this
    /// reads the model's record, for a host that wants to check its own
    /// bookkeeping.
    pub fn is_live(&self, pointer: Pointer) -> (live: bool)
        ensures
            live == self@.dom().contains(pointer),
    {
        pointer != 0 && pointer < self.slots.len() && self.slots[pointer].is_some()
    }
}

/// Creates a region of exactly `size` bytes and returns its pointer, which the
/// caller owns. What the region holds is not promised: the caller writes
/// before it reads. The arena does not remember the size on the caller's
/// behalf.
pub fn allocate(arena: &mut Arena, size: usize) -> (pointer: Pointer)
    requires
        size <= isize::MAX,
    ensures
        pointer != 0,
        allocated(old(arena)@, pointer, size as nat, final(arena)@),
{
    let region: Vec<u8> = vec![0u8; size];
    let pointer: Pointer = arena.place(region);
    assert(arena@.remove(pointer) =~= old(arena)@);
    pointer
}

/// Gives a region back. `capacity` must be the size that the region was
/// created with, and the pointer must not be used again. Neither is tested:
/// the arena has nothing to test them against.
#[allow(unused_variables)]
pub fn deallocate(arena: &mut Arena, pointer: Pointer, capacity: usize)
    requires
        old(arena)@.dom().contains(pointer),
        old(arena)@[pointer].len() == capacity,
    ensures
        final(arena)@ == old(arena)@.remove(pointer),
{
    let _ = arena.reclaim(pointer);
}

/// Regions do not interfere. Allocate two regions, fill each with a pattern
/// of its own, and release one of them: the other still holds its pattern,
/// whichever of the two was released. Once both are released, the arena is
/// what it was before.
pub proof fn regions_do_not_interfere(
    memory: Map<Pointer, Seq<u8>>,
    first: Pointer,
    one: Map<Pointer, Seq<u8>>,
    second: Pointer,
    both: Map<Pointer, Seq<u8>>,
    first_fill: Seq<u8>,
    second_fill: Seq<u8>,
)
    requires
        allocated(memory, first, first_fill.len(), one),
        allocated(one, second, second_fill.len(), both),
    ensures
        first != second,
        ({
            let half = both.insert(first, overwritten(both[first], 0, first_fill));
            let filled = half.insert(second, overwritten(half[second], 0, second_fill));
            &&& filled.remove(first)[second] == second_fill
            &&& filled.remove(second)[first] == first_fill
            &&& filled.remove(first).remove(second) == memory
            &&& filled.remove(second).remove(first) == memory
        }),
{
    let half = both.insert(first, overwritten(both[first], 0, first_fill));
    let filled = half.insert(second, overwritten(half[second], 0, second_fill));
    assert(one.dom().contains(first));
    assert(both.remove(second).dom().contains(first));
    assert(both[first] == both.remove(second)[first]);
    assert(overwritten(both[first], 0, first_fill) =~= first_fill);
    assert(overwritten(half[second], 0, second_fill) =~= second_fill);
    assert(filled.remove(first).remove(second) =~= both.remove(second).remove(first));
    assert(filled.remove(second).remove(first) =~= both.remove(second).remove(first));
}

} // verus!
