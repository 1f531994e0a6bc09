//! Capacity-bounded patch queues.
//!
//! A queue reserves a slot by incrementing its raw length counter. If the
//! reserved index is below the capacity the patch is stored there; otherwise
//! the counter still grows but the patch is silently dropped. The raw counter
//! may therefore exceed the capacity, and every consumer clamps it before
//! sizing further work. Render buckets share this shape: they only accumulate
//! for a whole frame instead of a single round.

use vstd::prelude::*;
use crate::patch::EncodedPatch;

verus! {

/// Mathematical state of a bounded queue: the raw append counter, the
/// capacity, and the patches actually stored.
pub ghost struct QueueModel {
    pub raw: int,
    pub cap: int,
    pub items: Seq<EncodedPatch>,
}

impl QueueModel {
    /// The stored patches are exactly the appends that found a free slot:
    /// their number is the raw counter clamped to the capacity.
    pub open spec fn wf(self) -> bool {
        &&& 0 <= self.raw
        &&& 0 <= self.cap
        &&& self.items.len() == self.clamped_len()
    }

    /// The raw counter clamped to the capacity: the only length consumers
    /// may rely on.
    pub open spec fn clamped_len(self) -> int {
        if self.raw <= self.cap {
            self.raw
        } else {
            self.cap
        }
    }

    /// One bounded append: the counter always grows, the patch is stored
    /// only while a slot below the capacity is free.
    pub open spec fn append(self, p: EncodedPatch) -> QueueModel {
        QueueModel {
            raw: self.raw + 1,
            cap: self.cap,
            items: if self.raw < self.cap {
                self.items.push(p)
            } else {
                self.items
            },
        }
    }

    pub open spec fn empty(cap: int) -> QueueModel {
        QueueModel { raw: 0, cap, items: Seq::empty() }
    }

    /// Every stored patch is well formed.
    pub open spec fn all_wf(self) -> bool {
        forall|i: int| 0 <= i < self.items.len() ==> #[trigger] self.items[i].wf()
    }

    /// Every stored patch encodes exactly the given depth.
    pub open spec fn all_at_depth(self, depth: int) -> bool {
        forall|i: int| 0 <= i < self.items.len() ==> #[trigger] self.items[i].depth() == depth
    }
}

/// A capacity-bounded, silently-saturating patch queue.
pub struct PatchQueue {
    /// Raw append counter; may exceed the capacity after saturation.
    pub patches_length: u32,
    /// Capacity: the number of slots that physically exist.
    pub patches_capacity: u32,
    /// The stored patches; never longer than the capacity.
    pub patches: Vec<EncodedPatch>,
}

impl View for PatchQueue {
    type V = QueueModel;

    open spec fn view(&self) -> QueueModel {
        QueueModel {
            raw: self.patches_length as int,
            cap: self.patches_capacity as int,
            items: self.patches@,
        }
    }
}

impl PatchQueue {
    /// An empty queue with the given capacity.
    pub fn new(capacity: u32) -> (q: PatchQueue)
        ensures
            q@ == QueueModel::empty(capacity as int),
            q@.wf(),
    {
        let q = PatchQueue { patches_length: 0, patches_capacity: capacity, patches: Vec::new() };
        proof {
            assert(q@.items =~= QueueModel::empty(capacity as int).items);
        }
        q
    }

    /// Reserve a slot and store the patch if the slot exists. Reports
    /// whether the patch survived; a drop is silent by design and the
    /// pipeline never depends on every patch surviving.
    pub fn try_append(&mut self, p: EncodedPatch) -> (stored: bool)
        requires
            old(self)@.wf(),
            old(self)@.raw < u32::MAX,
        ensures
            final(self)@ == old(self)@.append(p),
            final(self)@.wf(),
            stored == (old(self)@.raw < old(self)@.cap),
    {
        let index = self.patches_length;
        self.patches_length = self.patches_length + 1;
        if index < self.patches_capacity {
            self.patches.push(p);
            true
        } else {
            false
        }
    }

    /// The raw counter clamped to the capacity.
    pub fn len_clamped(&self) -> (n: u32)
        ensures
            n as int == self@.clamped_len(),
            n <= self.patches_capacity,
    {
        if self.patches_length <= self.patches_capacity {
            self.patches_length
        } else {
            self.patches_capacity
        }
    }

    /// Read one stored patch.
    pub fn get(&self, i: usize) -> (p: &EncodedPatch)
        requires
            i < self@.items.len(),
        ensures
            *p == self@.items[i as int],
    {
        &self.patches[i]
    }

    /// Restore the queue to length zero and empty content, keeping its
    /// capacity.
    pub fn reset(&mut self)
        ensures
            final(self)@ == QueueModel::empty(old(self)@.cap),
            final(self)@.wf(),
    {
        self.patches_length = 0;
        self.patches.clear();
        proof {
            assert(self@.items =~= QueueModel::empty(old(self)@.cap).items);
        }
    }

    /// Overwrite this queue with a precomputed empty template, as the
    /// round setup copies a zeroed constant buffer over the destination.
    pub fn reset_from(&mut self, template: &PatchQueue)
        requires
            template@.raw == 0,
            template@.wf(),
        ensures
            final(self)@ == template@,
            final(self)@.wf(),
    {
        self.patches_length = template.patches_length;
        self.patches_capacity = template.patches_capacity;
        self.patches.clear();
        proof {
            assert(self@.items =~= template@.items);
        }
    }
}

} // verus!
