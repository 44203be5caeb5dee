//! Uniform buffers and push constants, modelled per in-flight frame.
//!
//! A uniform buffer holds one staging value plus one GPU-resident slot
//! per in-flight frame, each with a validity flag. A write invalidates
//! every slot; binding a slot lazily re-uploads the staging value into
//! just that slot before the GPU reads it, so writes never race frames
//! still in flight.

use vstd::prelude::*;

verus! {

/// A double/multi-buffered uniform value: one slot per in-flight frame.
#[derive(Clone, Debug)]
pub struct UniformBuffer<T: Copy> {
    staging: T,
    slots: Vec<T>,
    valid: Vec<bool>,
}

impl<T: Copy> UniformBuffer<T> {
    /// One slot and one flag per in-flight frame, at least one frame;
    /// a valid slot always holds the staging value.
    pub closed spec fn wf(self) -> bool {
        &&& self.slots@.len() == self.valid@.len()
        &&& self.slots@.len() > 0
        &&& forall|k: int|
            0 <= k < self.valid@.len() && self.valid@[k] ==> self.slots@[k] == self.staging
    }

    pub closed spec fn spec_staging(self) -> T {
        self.staging
    }

    pub closed spec fn spec_slots(self) -> Seq<T> {
        self.slots@
    }

    pub closed spec fn spec_valid(self) -> Seq<bool> {
        self.valid@
    }

    /// Slot count equals the renderer's in-flight frame count, fixed at
    /// construction; every slot starts uploaded.
    pub fn new(in_flight_count: usize, data: T) -> (r: UniformBuffer<T>)
        requires
            in_flight_count > 0,
        ensures
            r.wf(),
            r.spec_staging() == data,
            r.spec_slots() =~= Seq::new(in_flight_count as nat, |k: int| data),
            r.spec_valid() =~= Seq::new(in_flight_count as nat, |k: int| true),
    {
        let mut slots: Vec<T> = Vec::new();
        let mut valid: Vec<bool> = Vec::new();
        let mut k: usize = 0;
        while k < in_flight_count
            invariant
                0 <= k <= in_flight_count,
                slots@.len() == k,
                valid@.len() == k,
                forall|j: int| 0 <= j < k ==> slots@[j] == data,
                forall|j: int| 0 <= j < k ==> valid@[j] == true,
            decreases in_flight_count - k,
        {
            slots.push(data);
            valid.push(true);
            k += 1;
        }
        UniformBuffer { staging: data, slots, valid }
    }

    /// The number of in-flight slots.
    pub fn slot_count(&self) -> (r: usize)
        ensures
            r == self.spec_slots().len(),
    {
        self.slots.len()
    }

    /// The staged (most recently written) value.
    pub fn data(&self) -> (r: T)
        ensures
            r == self.spec_staging(),
    {
        self.staging
    }

    /// The value a given slot would currently hand to the GPU.
    pub fn slot_value(&self, k: usize) -> (r: T)
        requires
            k < self.spec_slots().len(),
        ensures
            r == self.spec_slots()[k as int],
    {
        self.slots[k]
    }

    /// Whether a slot is up to date with the staging value.
    pub fn slot_valid(&self, k: usize) -> (r: bool)
        requires
            k < self.spec_valid().len(),
        ensures
            r == self.spec_valid()[k as int],
    {
        self.valid[k]
    }

    /// Writes the staging value and invalidates every slot: the next
    /// bind of each slot re-uploads before the GPU reads it.
    pub fn access_data(&mut self, value: T)
        requires
            old(self).wf(),
        ensures
            final(self).wf(),
            final(self).spec_staging() == value,
            final(self).spec_slots() == old(self).spec_slots(),
            final(self).spec_valid() =~= Seq::new(old(self).spec_valid().len(), |k: int| false),
    {
        let n = self.valid.len();
        let mut k: usize = 0;
        while k < n
            invariant
                0 <= k <= n,
                self.valid@.len() == n,
                self.slots@ == old(self).slots@,
                self.staging == old(self).staging,
                forall|j: int| 0 <= j < k ==> self.valid@[j] == false,
            decreases n - k,
        {
            self.valid[k] = false;
            k += 1;
        }
        self.staging = value;
    }

    /// Binds a slot for the frame about to use it: re-uploads the
    /// staging value into exactly that slot if it is stale, leaving
    /// every other slot untouched.
    pub fn bind(&mut self, k: usize)
        requires
            old(self).wf(),
            k < old(self).spec_slots().len(),
        ensures
            final(self).wf(),
            final(self).spec_staging() == old(self).spec_staging(),
            final(self).spec_slots()[k as int] == old(self).spec_staging(),
            final(self).spec_valid()[k as int] == true,
            final(self).spec_slots() =~= (if old(self).spec_valid()[k as int] {
                old(self).spec_slots()
            } else {
                old(self).spec_slots().update(k as int, old(self).spec_staging())
            }),
            final(self).spec_valid() =~= old(self).spec_valid().update(k as int, true),
    {
        if !self.valid[k] {
            self.slots[k] = self.staging;
            self.valid[k] = true;
        } else {
            proof {
                assert(self.valid@ =~= old(self).valid@.update(k as int, true));
            }
        }
    }
}

/// Law: after a write, binding slot `k` makes exactly that slot observe
/// the new value, and every other slot stays marked stale until it is
/// bound itself. The three states are one buffer before the write,
/// after the write, and after the bind.
pub proof fn law_uniform_staleness<T: Copy>(
    u0: UniformBuffer<T>,
    u1: UniformBuffer<T>,
    u2: UniformBuffer<T>,
    value: T,
    k: int,
)
    requires
        u0.wf(),
        0 <= k < u0.spec_slots().len(),
        // u1 is u0 after `access_data(value)`
        u1.wf(),
        u1.spec_staging() == value,
        u1.spec_slots() == u0.spec_slots(),
        u1.spec_valid() =~= Seq::new(u0.spec_valid().len(), |j: int| false),
        // u2 is u1 after `bind(k)`
        u2.spec_staging() == u1.spec_staging(),
        u2.spec_slots() =~= (if u1.spec_valid()[k] {
            u1.spec_slots()
        } else {
            u1.spec_slots().update(k, u1.spec_staging())
        }),
        u2.spec_valid() =~= u1.spec_valid().update(k, true),
    ensures
        u2.spec_slots()[k] == value,
        u2.spec_valid()[k] == true,
        forall|j: int| 0 <= j < u2.spec_valid().len() && j != k ==> u2.spec_valid()[j] == false,
        forall|j: int|
            0 <= j < u2.spec_slots().len() && j != k ==> u2.spec_slots()[j] == u0.spec_slots()[j],
{
}

/// A push constant: a single CPU-side staging value re-pushed to the
/// GPU on every draw, so the latest write is always what the next draw
/// sees.
#[derive(Clone, Copy, Debug)]
pub struct PushConstant<T: Copy> {
    value: T,
}

impl<T: Copy> PushConstant<T> {
    pub closed spec fn spec_value(self) -> T {
        self.value
    }

    pub fn new(value: T) -> (r: PushConstant<T>)
        ensures
            r.spec_value() == value,
    {
        PushConstant { value }
    }

    /// Overwrites the staged value; the next draw pushes it.
    pub fn access_data(&mut self, value: T)
        ensures
            final(self).spec_value() == value,
    {
        self.value = value;
    }

    /// The value the next draw will push.
    pub fn data(&self) -> (r: T)
        ensures
            r == self.spec_value(),
    {
        self.value
    }
}

} // verus!
