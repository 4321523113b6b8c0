use vstd::prelude::*;

use std::collections::VecDeque;

verus! {

/// A generational index: the top 8 bits hold the generation, the bottom 24
/// bits the slot.
#[derive(Debug, Clone, Copy, PartialEq, Eq, Hash, Structural)]
pub struct GenIdx(pub u32);

/// The bits of an index made of a slot and a generation.
pub open spec fn gen_idx_bits(index: usize, gen: u8) -> u32 {
    ((gen as u32) << 24u32) | (index as u32)
}

impl GenIdx {
    /// The index that names no slot.
    pub fn invalid() -> (idx: Self)
        ensures
            idx.0 == gen_idx_bits(0xFFFFFF, 0xFF),
    {
        Self::new(0xFFFFFF, 0xFF)
    }

    /// Packs slot `index` and generation `gen` into an index; the slot keeps
    /// its low 24 bits.
    pub fn new(index: usize, gen: u8) -> (idx: Self)
        ensures
            idx.0 == gen_idx_bits(index, gen),
    {
        Self(((gen as u32) << 24) | index as u32)
    }

    /// The raw bits.
    pub fn idx(&self) -> (r: u32)
        ensures
            r == self.0,
    {
        self.0
    }

    /// The slot and the generation.
    pub fn split(&self) -> (r: (usize, u8))
        ensures
            r.0 == (self.0 & 0xFFFFFFu32) as usize,
            r.1 == ((self.0 >> 24u32) & 0xFFu32) as u8,
    {
        let index = (self.0 & 0xFFFFFF) as usize;
        let gen = ((self.0 >> 24) & 0xFF) as u8;
        (index, gen)
    }

    /// Splitting an index packed from a slot below 2^24 gives back the slot
    /// and the generation.
    pub proof fn lemma_split_new(index: usize, gen: u8)
        requires
            index < 0x100_0000,
        ensures
            (gen_idx_bits(index, gen) & 0xFFFFFFu32) as usize == index,
            ((gen_idx_bits(index, gen) >> 24u32) & 0xFFu32) as u8 == gen,
    {
        let i = index as u32;
        let g = gen as u32;
        assert(i == index);
        assert((((g << 24u32) | i) & 0xFFFFFFu32) == i) by (bit_vector)
            requires
                i < 0x100_0000u32,
                g < 0x100u32,
        ;
        assert(((((g << 24u32) | i) >> 24u32) & 0xFFu32) == g) by (bit_vector)
            requires
                i < 0x100_0000u32,
                g < 0x100u32,
        ;
    }
}

/// A slot: its generation, and the item it holds, if any.
pub struct Resource<T> {
    pub gen: u8,
    pub item: Option<T>,
}

/// A vector whose slots are named by generational indices: removing an item
/// moves its slot to the next generation, so that the old index no longer
/// names it.
pub struct GenVec<T> {
    resources: Vec<Resource<T>>,
    free: VecDeque<usize>,
}

/// The generation that follows `gen`: 255 is followed by 0.
pub open spec fn next_gen(gen: u8) -> u8 {
    if gen == 255 {
        0
    } else {
        (gen + 1) as u8
    }
}

/// A walk over a vector's slots, as `GenVec::iter` starts it: it looks at
/// the slot at its position, and no call moves that position.
pub struct GenVecIter<'a, T> {
    next: usize,
    resources: &'a [Resource<T>],
}

impl<'a, T> GenVecIter<'a, T> {
    /// The slot the walk looks at.
    pub closed spec fn position(&self) -> int {
        self.next as int
    }

    /// The slots walked over.
    pub closed spec fn walked(&self) -> Seq<Resource<T>> {
        self.resources@
    }

    /// The item in the slot at the position, or `None` past the last slot.
    /// The position stays where it is, so every call gives the same answer;
    /// at an empty slot the call would look at that same slot again without
    /// end, so the slot at the position must hold an item.
    pub fn next(&mut self) -> (r: Option<&'a T>)
        requires
            old(self).position() < old(self).walked().len() ==> old(self).walked()[old(self).position()].item is Some,
        ensures
            final(self).position() == old(self).position(),
            final(self).walked() == old(self).walked(),
            r is Some <==> old(self).position() < old(self).walked().len(),
            r matches Some(x) ==> old(self).walked()[old(self).position()].item == Some(*x),
    {
        if self.next < self.resources.len() {
            match &self.resources[self.next].item {
                Some(item) => Some(item),
                None => vstd::pervasive::unreached(),
            }
        } else {
            None
        }
    }
}

impl<T> GenVec<T> {
    /// The slots.
    pub closed spec fn slots(&self) -> Seq<Resource<T>> {
        self.resources@
    }

    /// The slots queued for reuse, first to be reused first.
    pub closed spec fn free_slots(&self) -> Seq<usize> {
        self.free@
    }

    /// The invariant: the queued slots exist, are empty, and are queued once.
    pub open spec fn wf(&self) -> bool {
        &&& forall|i: int|
            0 <= i < self.free_slots().len() ==> #[trigger] self.free_slots()[i] < self.slots().len()
                && self.slots()[self.free_slots()[i] as int].item is None
        &&& forall|i: int, j: int|
            0 <= i < j < self.free_slots().len() ==> #[trigger] self.free_slots()[i] != #[trigger] self.free_slots()[j]
    }

    /// Whether `idx` names a slot that holds an item, in its current
    /// generation.
    pub open spec fn names_live(&self, idx: GenIdx) -> bool {
        let index = (idx.0 & 0xFFFFFFu32) as int;
        let gen = ((idx.0 >> 24u32) & 0xFFu32) as u8;
        &&& index < self.slots().len()
        &&& self.slots()[index].gen == gen
        &&& self.slots()[index].item is Some
    }

    /// The item that `idx` names.
    pub open spec fn item_at(&self, idx: GenIdx) -> T {
        self.slots()[(idx.0 & 0xFFFFFFu32) as int].item->Some_0
    }

    /// Whether `new` is `old` with `resource` stored, named by `idx`: in the
    /// first queued slot, which leaves the queue, or else in a new slot of
    /// generation 0.
    pub open spec fn added(old: Self, new: Self, resource: T, idx: GenIdx) -> bool {
        if old.free_slots().len() > 0 {
            let index = old.free_slots()[0] as int;
            &&& new.free_slots() == old.free_slots().drop_first()
            &&& new.slots() == old.slots().update(index, Resource { gen: old.slots()[index].gen, item: Some(resource) })
            &&& idx.0 == gen_idx_bits(index as usize, old.slots()[index].gen)
        } else {
            &&& new.free_slots() == old.free_slots()
            &&& new.slots() == old.slots().push(Resource { gen: 0, item: Some(resource) })
            &&& idx.0 == gen_idx_bits(old.slots().len() as usize, 0)
        }
    }

    /// Whether `new` is `old` with the slot that `idx` names emptied and moved
    /// to its next generation, and `r` the item it held.
    pub open spec fn removed(old: Self, new: Self, idx: GenIdx, r: Option<T>) -> bool {
        let index = (idx.0 & 0xFFFFFFu32) as int;
        &&& new.free_slots() == old.free_slots()
        &&& new.slots() == old.slots().update(index, Resource { gen: next_gen(old.slots()[index].gen), item: None })
        &&& r == old.slots()[index].item
    }

    /// An empty vector.
    pub fn new() -> (v: Self)
        ensures
            v.wf(),
            v.slots().len() == 0,
            v.free_slots().len() == 0,
    {
        GenVec { resources: Vec::new(), free: VecDeque::new() }
    }

    /// Stores `resource`, in the first queued slot or else in a new slot of
    /// generation 0, and hands back its index.
    pub fn add(&mut self, resource: T) -> (idx: GenIdx)
        requires
            old(self).wf(),
        ensures
            final(self).wf(),
            Self::added(*old(self), *final(self), resource, idx),
    {
        let index = if let Some(index) = self.free.pop_front() {
            index
        } else {
            self.resources.push(Resource { gen: 0, item: None });
            self.resources.len() - 1
        };
        self.resources[index].item = Some(resource);
        let idx = GenIdx::new(index, self.resources[index].gen);
        proof {
            if old(self).free_slots().len() > 0 {
                assert(self.free_slots() =~= old(self).free_slots().drop_first());
                assert(self.slots() =~= old(self).slots().update(
                    index as int,
                    Resource { gen: old(self).slots()[index as int].gen, item: Some(resource) },
                ));
            } else {
                assert(self.slots() =~= old(self).slots().push(Resource { gen: 0, item: Some(resource) }));
            }
            assert forall|i: int| 0 <= i < self.free_slots().len() implies #[trigger] self.free_slots()[i]
                < self.slots().len() && self.slots()[self.free_slots()[i] as int].item is None by {
                if old(self).free_slots().len() > 0 {
                    assert(self.free_slots()[i] == old(self).free_slots()[i + 1]);
                    assert(old(self).free_slots()[i + 1] != old(self).free_slots()[0]);
                }
            }
        }
        idx
    }

    /// Empties the slot that `idx` names, moves it to its next generation,
    /// and hands back the item it held. The slot must exist and be in the
    /// generation that `idx` names.
    pub fn remove(&mut self, idx: GenIdx) -> (r: Option<T>)
        requires
            old(self).wf(),
            (idx.0 & 0xFFFFFFu32) < old(self).slots().len(),
            old(self).slots()[(idx.0 & 0xFFFFFFu32) as int].gen == ((idx.0 >> 24u32) & 0xFFu32) as u8,
        ensures
            final(self).wf(),
            Self::removed(*old(self), *final(self), idx, r),
    {
        let (index, gen) = idx.split();
        if self.resources[index].gen == 255 {
            self.resources[index].gen = 0;
        } else {
            self.resources[index].gen = self.resources[index].gen + 1;
        }
        let r = self.resources[index].item.take();
        proof {
            assert(self.slots() =~= old(self).slots().update(
                index as int,
                Resource { gen: next_gen(old(self).slots()[index as int].gen), item: None },
            ));
        }
        r
    }

    /// Whether `idx` names a slot in its current generation (the check that
    /// removing and indexing make of their index), and the slot holds an
    /// item.
    pub fn is_live(&self, idx: GenIdx) -> (b: bool)
        ensures
            b == self.names_live(idx),
    {
        let (index, gen) = idx.split();
        index < self.resources.len() && self.resources[index].gen == gen && self.resources[index].item.is_some()
    }

    /// A walk over the slots, from the first.
    pub fn iter(&self) -> (it: GenVecIter<'_, T>)
        ensures
            it.position() == 0,
            it.walked() == self.slots(),
    {
        GenVecIter { next: 0, resources: self.resources.as_slice() }
    }

    /// Storing an item and then reading it back by the index handed out
    /// gives the item, while there are fewer than 2^24 slots.
    pub proof fn lemma_add_then_index(old: Self, new: Self, resource: T, idx: GenIdx)
        requires
            old.wf(),
            Self::added(old, new, resource, idx),
            old.slots().len() < 0x100_0000,
        ensures
            new.names_live(idx),
            new.item_at(idx) == resource,
    {
        if old.free_slots().len() > 0 {
            let index = old.free_slots()[0];
            GenIdx::lemma_split_new(index, old.slots()[index as int].gen);
        } else {
            GenIdx::lemma_split_new(old.slots().len() as usize, 0);
        }
    }

    /// Storing an item leaves every live index live, naming the same item.
    pub proof fn lemma_add_keeps_live(old: Self, new: Self, resource: T, idx: GenIdx, other: GenIdx)
        requires
            old.wf(),
            Self::added(old, new, resource, idx),
            old.names_live(other),
        ensures
            new.names_live(other),
            new.item_at(other) == old.item_at(other),
    {
        if old.free_slots().len() > 0 {
            let index = old.free_slots()[0];
            assert(old.slots()[index as int].item is None);
        }
    }

    /// Removing by an index hands back the item it named; afterwards the
    /// index no longer names a live slot, and every other slot is as it was.
    pub proof fn lemma_remove_then_index(old: Self, new: Self, idx: GenIdx, r: Option<T>, other: GenIdx)
        requires
            old.names_live(idx),
            Self::removed(old, new, idx, r),
            (other.0 & 0xFFFFFFu32) != (idx.0 & 0xFFFFFFu32),
        ensures
            r == Some(old.item_at(idx)),
            !new.names_live(idx),
            new.names_live(other) == old.names_live(other),
            old.names_live(other) ==> new.item_at(other) == old.item_at(other),
    {
    }
}

impl<T> core::default::Default for GenVec<T> {
    fn default() -> (v: Self)
        ensures
            v.wf(),
            v.slots().len() == 0,
            v.free_slots().len() == 0,
    {
        GenVec::new()
    }
}

impl<T> core::ops::Index<GenIdx> for GenVec<T> {
    type Output = T;

    /// The item that `idx` names; its slot must be live in that generation.
    fn index(&self, idx: GenIdx) -> (r: &T)
        ensures
            *r == self.item_at(idx),
    {
        let (index, gen) = idx.split();
        match &self.resources[index].item {
            Some(item) => item,
            None => vstd::pervasive::unreached(),
        }
    }
}

impl<T> vstd::std_specs::core::IndexSpecImpl<GenIdx> for GenVec<T> {
    open spec fn index_req(&self, idx: &GenIdx) -> bool {
        self.names_live(*idx)
    }
}

} // verus!