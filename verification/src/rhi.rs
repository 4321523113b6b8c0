use vstd::prelude::*;

use std::collections::VecDeque;

use crate::error::AgeError;

verus! {

/// The kinds of resource that the renderer hands out ids for.
#[derive(Debug, Clone, Copy, PartialEq, Eq, Hash, Structural)]
pub enum RendererResource {
    Backbuffer,
}

impl RendererResource {
    /// The number that stands for the kind in the top 8 bits of an id.
    pub open spec fn code_spec(&self) -> u32 {
        match self {
            RendererResource::Backbuffer => 1,
        }
    }

    /// The number that stands for the kind in the top 8 bits of an id.
    pub fn code(&self) -> (c: u32)
        ensures
            c == self.code_spec(),
    {
        match self {
            RendererResource::Backbuffer => 1,
        }
    }
}

/// The message of the error for a number that stands for no kind.
pub open spec fn invalid_resource_message() -> Seq<char> {
    seq!['i', 'n', 'v', 'a', 'l', 'i', 'd', ' ', 'r', 'e', 'n', 'd', 'e', 'r', 'e', 'r', ' ', 'r', 'e', 's',
        'o', 'u', 'r', 'c', 'e']
}

impl core::convert::TryFrom<u8> for RendererResource {
    type Error = AgeError;

    /// The kind that the number stands for.
    fn try_from(value: u8) -> (r: Result<Self, AgeError>)
        ensures
            value == 1 ==> r == Ok::<RendererResource, AgeError>(RendererResource::Backbuffer),
            value != 1 ==> (r matches Err(e) && e.message_spec() == invalid_resource_message()),
    {
        match value {
            1 => Ok(RendererResource::Backbuffer),
            _ => {
                let msg = "invalid renderer resource";
                proof {
                    reveal_strlit("invalid renderer resource");
                }
                Err(AgeError::new(msg))
            },
        }
    }
}

impl vstd::std_specs::convert::TryFromSpecImpl<u8> for RendererResource {
    /// No value of `AgeError` can be written in a specification (its message
    /// is a `String`), so the conversion is described by the `ensures` of
    /// `try_from` instead.
    open spec fn obeys_try_from_spec() -> bool {
        false
    }

    open spec fn try_from_spec(value: u8) -> Result<Self, AgeError> {
        arbitrary()
    }
}

/// The id of a renderer resource: its kind in the top 8 bits, its slot in
/// the bottom 24.
#[derive(Debug, Clone, Copy, PartialEq, Eq, Hash, Structural)]
pub struct RendererId(pub u32);

impl RendererId {
    /// The id that names no resource.
    pub fn invalid() -> (id: Self)
        ensures
            id.0 == 0xFFFF_FFFF,
    {
        RendererId(0xFFFF_FFFF)
    }

    /// The kind and the slot.
    pub fn split(&self) -> (r: (u8, u32))
        ensures
            r.0 == (self.0 >> 24u32) as u8,
            r.1 == self.0 & 0xFFFFFFu32,
    {
        let ty = self.0 >> 24;
        let index = self.0 & 0xFFFFFF;
        (ty as u8, index)
    }
}

impl core::default::Default for RendererId {
    fn default() -> (id: Self)
        ensures
            id.0 == 0xFFFF_FFFF,
    {
        Self::invalid()
    }
}

/// The bits of the id of a resource of kind `code` in slot `index`.
pub open spec fn renderer_id_bits(code: u32, index: usize) -> u32 {
    (code << 24u32) | (index as u32)
}

/// The render hardware interface's table of resource ids: which slots are
/// taken, by what kind, and which slots were released, first released first
/// reused.
pub struct Rhi {
    resource_ids: Vec<Option<RendererResource>>,
    free_ids: VecDeque<usize>,
}

impl core::default::Default for Rhi {
    /// An empty table.
    fn default() -> (t: Self)
        ensures
            t.wf(),
            t.slots().len() == 0,
            t.free_slots().len() == 0,
    {
        Rhi::new()
    }
}

impl Rhi {
    /// What each slot holds.
    pub closed spec fn slots(&self) -> Seq<Option<RendererResource>> {
        self.resource_ids@
    }

    /// The released slots, first released first.
    pub closed spec fn free_slots(&self) -> Seq<usize> {
        self.free_ids@
    }

    /// The invariant: released slots exist.
    pub open spec fn wf(&self) -> bool {
        forall|i: int| 0 <= i < self.free_slots().len() ==> #[trigger] self.free_slots()[i] < self.slots().len()
    }

    /// An empty table.
    pub fn new() -> (t: Self)
        ensures
            t.wf(),
            t.slots().len() == 0,
            t.free_slots().len() == 0,
    {
        Rhi { resource_ids: Vec::new(), free_ids: VecDeque::new() }
    }

    /// Whether `new` is `old` with a slot taken for `resource`, named by
    /// `id`: the first released slot, or else a new slot at the end.
    pub open spec fn reserved(old: Self, new: Self, resource: RendererResource, id: RendererId) -> bool {
        if old.free_slots().len() > 0 {
            let index = old.free_slots()[0] as int;
            &&& new.free_slots() == old.free_slots().drop_first()
            &&& new.slots() == old.slots().update(index, Some(resource))
            &&& id.0 == renderer_id_bits(resource.code_spec(), index as usize)
        } else {
            &&& new.free_slots() == old.free_slots()
            &&& new.slots() == old.slots().push(Some(resource))
            &&& id.0 == renderer_id_bits(resource.code_spec(), old.slots().len() as usize)
        }
    }

    /// Takes a slot for `resource` and hands back its id.
    pub fn reserve_renderer_id(&mut self, resource: RendererResource) -> (id: RendererId)
        requires
            old(self).wf(),
            old(self).slots().len() < usize::MAX,
        ensures
            final(self).wf(),
            Self::reserved(*old(self), *final(self), resource, id),
    {
        let index = match self.free_ids.pop_front() {
            Some(index) => index,
            None => {
                let len = self.resource_ids.len();
                self.resource_ids.push(None);
                len
            },
        };
        self.resource_ids.set(index, Some(resource));
        proof {
            if old(self).free_slots().len() > 0 {
                assert(self.free_slots() =~= old(self).free_slots().drop_first());
                assert(self.slots() =~= old(self).slots().update(index as int, Some(resource)));
                assert forall|i: int| 0 <= i < self.free_slots().len() implies #[trigger] self.free_slots()[i]
                    < self.slots().len() by {
                    assert(self.free_slots()[i] == old(self).free_slots()[i + 1]);
                }
            } else {
                assert(self.slots() =~= old(self).slots().push(Some(resource)));
            }
        }
        RendererId((resource.code() << 24) | (index as u32))
    }

    /// Releases the slot that `id` names: the slot is emptied and queued for
    /// reuse. The slot must exist.
    pub fn release_renderer_id(&mut self, id: RendererId)
        requires
            old(self).wf(),
            (id.0 & 0xFFFFFFu32) < old(self).slots().len(),
        ensures
            final(self).wf(),
            final(self).slots() == old(self).slots().update((id.0 & 0xFFFFFFu32) as int, None),
            final(self).free_slots() == old(self).free_slots().push((id.0 & 0xFFFFFFu32) as usize),
    {
        let index = (id.0 & 0xFFFFFF) as usize;
        self.resource_ids.set(index, None);
        self.free_ids.push_back(index);
        proof {
            assert forall|i: int| 0 <= i < self.free_slots().len() implies #[trigger] self.free_slots()[i]
                < self.slots().len() by {
                if i < old(self).free_slots().len() {
                    assert(self.free_slots()[i] == old(self).free_slots()[i]);
                }
            }
        }
    }

    /// A reserved id splits into the kind's number and the slot, while there
    /// are fewer than 2^24 slots.
    pub proof fn lemma_reserved_split(old: Self, new: Self, resource: RendererResource, id: RendererId)
        requires
            old.wf(),
            Self::reserved(old, new, resource, id),
            old.slots().len() < 0x100_0000,
        ensures
            (id.0 >> 24u32) as u8 == resource.code_spec(),
            (id.0 & 0xFFFFFFu32) < new.slots().len(),
            new.slots()[(id.0 & 0xFFFFFFu32) as int] == Some(resource),
    {
        let index: usize = if old.free_slots().len() > 0 {
            old.free_slots()[0]
        } else {
            old.slots().len() as usize
        };
        let i = index as u32;
        let c = resource.code_spec();
        assert(c == 1);
        assert(i == index);
        assert((((c << 24u32) | i) >> 24u32) as u8 == c) by (bit_vector)
            requires
                i < 0x100_0000u32,
                c < 0x100u32,
        ;
        assert((((c << 24u32) | i) & 0xFFFFFFu32) == i) by (bit_vector)
            requires
                i < 0x100_0000u32,
                c < 0x100u32,
        ;
    }

    /// Where every released slot still waiting holds nothing (no id was
    /// released twice, or released while its slot was empty), a reservation
    /// takes a slot that held nothing, while there are fewer than 2^24
    /// slots: its id names no slot that another live id names, and every
    /// other slot is as it was.
    pub proof fn lemma_reserved_slot_was_free(old: Self, new: Self, resource: RendererResource, id: RendererId)
        requires
            old.wf(),
            Self::reserved(old, new, resource, id),
            old.slots().len() < 0x100_0000,
            forall|q: int| 0 <= q < old.free_slots().len() ==> old.slots()[#[trigger] old.free_slots()[q] as int] is None,
        ensures
            (id.0 & 0xFFFFFFu32) == old.slots().len() || old.slots()[(id.0 & 0xFFFFFFu32) as int] is None,
            forall|j: int|
                0 <= j < old.slots().len() && j != (id.0 & 0xFFFFFFu32) ==> #[trigger] new.slots()[j] == old.slots()[j],
    {
        let index: usize = if old.free_slots().len() > 0 {
            old.free_slots()[0]
        } else {
            old.slots().len() as usize
        };
        let i = index as u32;
        let c = resource.code_spec();
        assert(c == 1);
        assert(i == index);
        assert((((c << 24u32) | i) & 0xFFFFFFu32) == i) by (bit_vector)
            requires
                i < 0x100_0000u32,
                c < 0x100u32,
        ;
        assert((id.0 & 0xFFFFFFu32) == index);
        if old.free_slots().len() > 0 {
            assert(old.slots()[index as int] is None);
        }
    }

    /// A released slot is the next one reserved, when no other slot was
    /// waiting.
    pub proof fn lemma_release_then_reserve(
        a: Self,
        b: Self,
        c: Self,
        released: RendererId,
        resource: RendererResource,
        id: RendererId,
    )
        requires
            a.wf(),
            a.free_slots().len() == 0,
            (released.0 & 0xFFFFFFu32) < a.slots().len(),
            b.slots() == a.slots().update((released.0 & 0xFFFFFFu32) as int, None),
            b.free_slots() == a.free_slots().push((released.0 & 0xFFFFFFu32) as usize),
            Self::reserved(b, c, resource, id),
        ensures
            id.0 == renderer_id_bits(resource.code_spec(), (released.0 & 0xFFFFFFu32) as usize),
            c.free_slots().len() == 0,
            c.slots() == a.slots().update((released.0 & 0xFFFFFFu32) as int, Some(resource)),
    {
        assert(c.slots() =~= a.slots().update((released.0 & 0xFFFFFFu32) as int, Some(resource)));
    }
}

} // verus!
