//! The structure arena: a slot array with generation-checked handles.
//!
//! Every structure lives in a slot `{ generation, bundle }`.  Destroying a
//! structure clears the bundle and moves the generation on, so the slot can
//! be reused while every handle issued for the old occupant goes stale and
//! resolves to nothing.  Split-borrow iteration — mutating one structure
//! while reading or mutating all the others — is done by taking the bundle
//! out of its slot, working against the rest of the arena, and putting it
//! back: the arena with the slot emptied is exactly the "all others" view.

use vstd::prelude::*;

use crate::structure::{StructureBundle, StructureId};

verus! {

#[derive(Clone, Debug)]
pub struct StructureEntry {
    pub gen: u32,
    pub bundle: Option<StructureBundle>,
}

/// The generation a slot carries after one more destroy.  Never equal to
/// its argument, so a stale handle can never match the reused slot.
pub open spec fn next_gen(g: u32) -> u32 {
    if g == u32::MAX {
        0u32
    } else {
        (g + 1) as u32
    }
}

pub proof fn lemma_next_gen_differs(g: u32)
    ensures
        next_gen(g) != g,
{
}

pub struct StructureArena {
    pub slots: Vec<StructureEntry>,
}

impl StructureArena {
    /// A handle is valid exactly when its slot is live and still carries
    /// the handle's generation.
    pub open spec fn valid_id(self, id: StructureId) -> bool {
        &&& (id.id as int) < self.slots@.len()
        &&& self.slots@[id.id as int].gen == id.gen
        &&& self.slots@[id.id as int].bundle is Some
    }

    /// What a handle resolves to: the slot's bundle when the handle is
    /// valid, nothing otherwise.
    pub open spec fn spec_get(self, id: StructureId) -> Option<StructureBundle> {
        if self.valid_id(id) {
            self.slots@[id.id as int].bundle
        } else {
            None
        }
    }

    /// Every bundle in the arena is well formed.
    pub open spec fn wf(self) -> bool {
        forall|i: int|
            0 <= i < self.slots@.len() ==> match (#[trigger] self.slots@[i]).bundle {
                Some(b) => b.wf(),
                None => true,
            }
    }

    pub fn new() -> (r: Self)
        ensures
            r.slots@.len() == 0,
            r.wf(),
    {
        StructureArena { slots: Vec::new() }
    }

    pub fn len(&self) -> (r: usize)
        ensures
            r == self.slots@.len(),
    {
        self.slots.len()
    }

    /// Look a handle up, validating its generation.  Returns the bundle
    /// exactly when the slot is live and the generations match — a stale
    /// handle resolves to `None`, never to the slot's new occupant.
    pub fn get(&self, id: StructureId) -> (r: Option<&StructureBundle>)
        ensures
            r is Some <==> self.valid_id(id),
            match r {
                Some(b) => self.spec_get(id) == Some(*b),
                None => self.spec_get(id) is None,
            },
    {
        let idx = id.id as usize;
        if idx < self.slots.len() {
            let entry = &self.slots[idx];
            if entry.gen == id.gen {
                entry.bundle.as_ref()
            } else {
                None
            }
        } else {
            None
        }
    }

    /// Access a slot by raw index, without generation checking.
    pub fn get_at(&self, idx: usize) -> (r: Option<&StructureEntry>)
        ensures
            match r {
                Some(e) => idx < self.slots@.len() && *e == self.slots@[idx as int],
                None => idx >= self.slots@.len(),
            },
    {
        if idx < self.slots.len() {
            Some(&self.slots[idx])
        } else {
            None
        }
    }

    /// The split-borrow operation: take the bundle at index `i` out of its
    /// slot, leaving the generation as it is.  The arena afterwards is the
    /// "all other structures" view — the slot at `i` is empty while every
    /// other slot is untouched — and the caller holds the center bundle
    /// exclusively until `restore_at` puts it back.
    pub fn take_at(&mut self, i: usize) -> (r: Option<StructureBundle>)
        requires
            i < old(self).slots@.len(),
        ensures
            r == old(self).slots@[i as int].bundle,
            final(self).slots@ == old(self).slots@.update(
                i as int,
                StructureEntry { gen: old(self).slots@[i as int].gen, bundle: None },
            ),
    {
        let mut tmp: Option<StructureBundle> = None;
        let entry = &mut self.slots[i];
        core::mem::swap(&mut entry.bundle, &mut tmp);
        proof {
            assert(final(self).slots@ =~= old(self).slots@.update(
                i as int,
                StructureEntry { gen: old(self).slots@[i as int].gen, bundle: None },
            ));
        }
        tmp
    }

    /// Put a bundle taken by `take_at` back into its slot.
    pub fn restore_at(&mut self, i: usize, b: StructureBundle)
        requires
            i < old(self).slots@.len(),
        ensures
            final(self).slots@ == old(self).slots@.update(
                i as int,
                StructureEntry { gen: old(self).slots@[i as int].gen, bundle: Some(b) },
            ),
    {
        let entry = &mut self.slots[i];
        entry.bundle = Some(b);
        proof {
            assert(final(self).slots@ =~= old(self).slots@.update(
                i as int,
                StructureEntry { gen: old(self).slots@[i as int].gen, bundle: Some(b) },
            ));
        }
    }

    /// Insert a structure: the first empty slot is reused under its
    /// current generation, or a fresh slot is appended at generation 0.
    /// The returned handle is valid and resolves to the inserted bundle.
    pub fn place(&mut self, b: StructureBundle) -> (r: StructureId)
        requires
            old(self).slots@.len() < u32::MAX,
        ensures
            final(self).valid_id(r),
            final(self).spec_get(r) == Some(b),
            if (r.id as int) < old(self).slots@.len() {
                &&& old(self).slots@[r.id as int].bundle is None
                &&& (forall|j: int|
                    0 <= j < r.id as int ==> (#[trigger] old(self).slots@[j]).bundle is Some)
                &&& r.gen == old(self).slots@[r.id as int].gen
                &&& final(self).slots@ == old(self).slots@.update(
                    r.id as int,
                    StructureEntry { gen: r.gen, bundle: Some(b) },
                )
            } else {
                &&& (forall|j: int|
                    0 <= j < old(self).slots@.len() ==> (#[trigger] old(
                        self,
                    ).slots@[j]).bundle is Some)
                &&& r.id as int == old(self).slots@.len()
                &&& r.gen == 0
                &&& final(self).slots@ == old(self).slots@.push(
                    StructureEntry { gen: 0, bundle: Some(b) },
                )
            },
    {
        let mut i: usize = 0;
        let n = self.slots.len();
        while i < n && self.slots[i].bundle.is_some()
            invariant
                self.slots@ == old(self).slots@,
                n == self.slots@.len(),
                0 <= i <= n,
                forall|j: int| 0 <= j < i ==> (#[trigger] self.slots@[j]).bundle is Some,
            decreases n - i,
        {
            i = i + 1;
        }
        if i < n {
            let g = self.slots[i].gen;
            let entry = &mut self.slots[i];
            entry.bundle = Some(b);
            proof {
                assert(self.slots@ =~= old(self).slots@.update(
                    i as int,
                    StructureEntry { gen: g, bundle: Some(b) },
                ));
            }
            StructureId { id: i as u32, gen: g }
        } else {
            self.slots.push(StructureEntry { gen: 0, bundle: Some(b) });
            StructureId { id: n as u32, gen: 0 }
        }
    }

    /// Destroy the structure a handle points at: the bundle is removed and
    /// the slot's generation moves on, so the handle (and every copy of
    /// it) goes stale.  A stale or unknown handle removes nothing.
    pub fn remove(&mut self, id: StructureId) -> (r: Option<StructureBundle>)
        ensures
            r == old(self).spec_get(id),
            old(self).valid_id(id) ==> final(self).slots@ == old(self).slots@.update(
                id.id as int,
                StructureEntry { gen: next_gen(id.gen), bundle: None },
            ),
            !old(self).valid_id(id) ==> final(self).slots@ == old(self).slots@,
            !final(self).valid_id(id),
    {
        let idx = id.id as usize;
        if idx < self.slots.len() {
            if self.slots[idx].gen == id.gen && self.slots[idx].bundle.is_some() {
                let mut tmp: Option<StructureBundle> = None;
                let entry = &mut self.slots[idx];
                core::mem::swap(&mut entry.bundle, &mut tmp);
                let g = entry.gen;
                entry.gen = if g == u32::MAX {
                    0
                } else {
                    g + 1
                };
                proof {
                    assert(final(self).slots@ =~= old(self).slots@.update(
                        idx as int,
                        StructureEntry { gen: next_gen(id.gen), bundle: None },
                    ));
                }
                return tmp;
            }
        }
        None
    }
}

/// Split-borrow exclusivity: after the arena's per-index split takes the
/// bundle at `i`, the remaining view resolves no handle to index `i`, and
/// resolves every handle to any other index exactly as the full arena did
/// — each other live slot appears exactly once, unchanged.
pub proof fn lemma_split_view_exclusive(
    pre: StructureArena,
    post: StructureArena,
    i: int,
)
    requires
        0 <= i < pre.slots@.len(),
        post.slots@ == pre.slots@.update(
            i,
            StructureEntry { gen: pre.slots@[i].gen, bundle: None },
        ),
    ensures
        forall|id: StructureId| id.id as int == i ==> post.spec_get(id) is None,
        forall|id: StructureId| id.id as int != i ==> post.spec_get(id) == pre.spec_get(id),
{
}

/// Handle staleness across slot reuse: destroy the structure a handle
/// points at, then place a new structure that reuses the same slot — the
/// old handle resolves to `None`, never to the new occupant.
pub proof fn lemma_stale_handle_after_reuse(
    a0: StructureArena,
    a1: StructureArena,
    a2: StructureArena,
    id: StructureId,
    b: StructureBundle,
)
    requires
        a0.valid_id(id),
        // what `remove(id)` leaves behind
        a1.slots@ == a0.slots@.update(
            id.id as int,
            StructureEntry { gen: next_gen(id.gen), bundle: None },
        ),
        // what `place(b)` leaves behind when it reuses that slot
        a2.slots@ == a1.slots@.update(
            id.id as int,
            StructureEntry { gen: a1.slots@[id.id as int].gen, bundle: Some(b) },
        ),
    ensures
        !a2.valid_id(id),
        a2.spec_get(id) is None,
        a2.spec_get(id) != Some(b),
{
    lemma_next_gen_differs(id.gen);
}

} // verus!
