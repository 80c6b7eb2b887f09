//! Generational arena: slot storage that hands out `(index, generation)`
//! handles and checks the generation on every access.

use vstd::prelude::*;

verus! {

/// Reference to a slot of an [`Arena`]. It is valid only while the slot still
/// carries the generation the handle was minted with.
#[derive(Clone, Copy, PartialEq, Eq, Structural, Hash, Debug)]
pub struct Handle {
    pub idx: u32,
    pub generation: u64,
}

impl Handle {
    /// The handle that refers to nothing: generation zero is never minted.
    pub fn unset() -> (h: Handle)
        ensures
            h.idx == 0,
            h.generation == 0,
    {
        Handle { idx: 0, generation: 0 }
    }

    pub fn reset(&mut self)
        ensures
            final(self).generation == 0,
            final(self).idx == old(self).idx,
    {
        self.generation = 0;
    }

    pub fn is_set(&self) -> (set: bool)
        ensures
            set == (self.generation > 0),
    {
        self.generation > 0
    }

    pub fn id(&self) -> (idx: u32)
        ensures
            idx == self.idx,
    {
        self.idx
    }
}

/// A stored value with the generation it was inserted under.
pub struct Slot<T> {
    pub obj: T,
    pub generation: u64,
}

/// Mathematical content of an arena: for each slot either nothing or the
/// value stored there with its generation, and the generation counter.
pub struct ArenaModel<T> {
    pub slots: Seq<Option<Slot<T>>>,
    pub generation: nat,
}

/// Index of the first empty slot at or after `from`, or the length if there is none.
pub open spec fn first_free_from<T>(slots: Seq<Option<Slot<T>>>, from: int) -> int
    decreases slots.len() - from,
{
    if from < 0 || from >= slots.len() {
        slots.len() as int
    } else if slots[from] is None {
        from
    } else {
        first_free_from(slots, from + 1)
    }
}

/// `slots` without its trailing empty slots.
pub open spec fn trimmed<T>(slots: Seq<Option<Slot<T>>>) -> Seq<Option<Slot<T>>>
    decreases slots.len(),
{
    if slots.len() > 0 && slots.last() is None {
        trimmed(slots.drop_last())
    } else {
        slots
    }
}

/// Number of occupied slots.
pub open spec fn occupied<T>(slots: Seq<Option<Slot<T>>>) -> nat
    decreases slots.len(),
{
    if slots.len() == 0 {
        0
    } else {
        occupied(slots.drop_last()) + if slots.last() is Some { 1nat } else { 0nat }
    }
}

impl<T> ArenaModel<T> {
    pub open spec fn empty() -> Self {
        ArenaModel { slots: Seq::empty(), generation: 0 }
    }

    /// Every stored generation was minted (between one and the counter), no
    /// two slots share one, and the last slot is occupied.
    pub open spec fn wf(self) -> bool {
        &&& forall|i: int|
            0 <= i < self.slots.len() && #[trigger] self.slots[i] is Some ==> 1
                <= self.slots[i]->0.generation <= self.generation
        &&& forall|i: int, j: int|
            0 <= i < self.slots.len() && 0 <= j < self.slots.len() && i != j
                && #[trigger] self.slots[i] is Some && #[trigger] self.slots[j] is Some
                ==> self.slots[i]->0.generation != self.slots[j]->0.generation
        &&& self.slots.len() > 0 ==> self.slots.last() is Some
    }

    /// The handle refers to an occupied slot of its own generation.
    pub open spec fn live(self, h: Handle) -> bool {
        &&& (h.idx as int) < self.slots.len()
        &&& self.slots[h.idx as int] is Some
        &&& self.slots[h.idx as int]->0.generation == h.generation
    }

    /// The handle's generation was minted already, and it is not live: no
    /// later insertion can bring it back.
    pub open spec fn retired(self, h: Handle) -> bool {
        h.generation <= self.generation && !self.live(h)
    }

    pub open spec fn get(self, h: Handle) -> Option<T> {
        if self.live(h) {
            Some(self.slots[h.idx as int]->0.obj)
        } else {
            None
        }
    }

    pub open spec fn count(self) -> nat {
        occupied(self.slots)
    }

    /// The handle that the next insertion returns.
    pub open spec fn next_handle(self) -> Handle {
        Handle {
            idx: first_free_from(self.slots, 0) as u32,
            generation: (self.generation + 1) as u64,
        }
    }

    /// The arena after inserting `value`: it goes into the first empty slot,
    /// or a new last slot, under the next generation.
    pub open spec fn add(self, value: T) -> Self {
        let idx = first_free_from(self.slots, 0);
        let cell = Some(Slot { obj: value, generation: (self.generation + 1) as u64 });
        ArenaModel {
            slots: if idx < self.slots.len() {
                self.slots.update(idx, cell)
            } else {
                self.slots.push(cell)
            },
            generation: self.generation + 1,
        }
    }

    /// The arena after removing `h`: unchanged if `h` is not live, else the
    /// slot is emptied and trailing empty slots are dropped.
    pub open spec fn remove(self, h: Handle) -> Self {
        if self.live(h) {
            ArenaModel {
                slots: trimmed(self.slots.update(h.idx as int, None)),
                generation: self.generation,
            }
        } else {
            self
        }
    }

    /// The arena with the value under a live handle replaced.
    pub open spec fn set(self, h: Handle, value: T) -> Self {
        if self.live(h) {
            ArenaModel {
                slots: self.slots.update(h.idx as int, Some(Slot { obj: value, generation: h.generation })),
                generation: self.generation,
            }
        } else {
            self
        }
    }
}


/// `first_free_from` lands on the first empty slot at or after `from`.
pub proof fn lemma_first_free<T>(slots: Seq<Option<Slot<T>>>, from: int)
    requires
        0 <= from <= slots.len(),
    ensures
        from <= first_free_from(slots, from) <= slots.len(),
        forall|k: int| from <= k < first_free_from(slots, from) ==> (#[trigger] slots[k]) is Some,
        first_free_from(slots, from) < slots.len() ==> slots[first_free_from(slots, from)] is None,
    decreases slots.len() - from,
{
    if from < slots.len() && slots[from] is Some {
        lemma_first_free(slots, from + 1);
    }
}

pub proof fn lemma_occupied_bound<T>(slots: Seq<Option<Slot<T>>>)
    ensures
        occupied(slots) <= slots.len(),
    decreases slots.len(),
{
    if slots.len() > 0 {
        lemma_occupied_bound(slots.drop_last());
    }
}

/// Replacing one slot changes the number of occupied slots by what the slot
/// gains or loses.
pub proof fn lemma_occupied_update<T>(slots: Seq<Option<Slot<T>>>, i: int, cell: Option<Slot<T>>)
    requires
        0 <= i < slots.len(),
    ensures
        occupied(slots.update(i, cell)) + (if slots[i] is Some { 1nat } else { 0nat })
            == occupied(slots) + (if cell is Some { 1nat } else { 0nat }),
    decreases slots.len(),
{
    let after = slots.update(i, cell);
    if i == slots.len() - 1 {
        assert(after.drop_last() =~= slots.drop_last());
    } else {
        assert(after.drop_last() =~= slots.drop_last().update(i, cell));
        lemma_occupied_update(slots.drop_last(), i, cell);
    }
}

pub proof fn lemma_occupied_push<T>(slots: Seq<Option<Slot<T>>>, cell: Option<Slot<T>>)
    ensures
        occupied(slots.push(cell)) == occupied(slots) + (if cell is Some { 1nat } else { 0nat }),
{
    assert(slots.push(cell).drop_last() =~= slots);
}

/// Trimming keeps a prefix that ends in an occupied slot and loses no
/// occupied slot.
pub proof fn lemma_trimmed<T>(slots: Seq<Option<Slot<T>>>)
    ensures
        trimmed(slots).len() <= slots.len(),
        trimmed(slots) =~= slots.subrange(0, trimmed(slots).len() as int),
        trimmed(slots).len() > 0 ==> trimmed(slots).last() is Some,
        forall|k: int| trimmed(slots).len() <= k < slots.len() ==> (#[trigger] slots[k]) is None,
        occupied(trimmed(slots)) == occupied(slots),
    decreases slots.len(),
{
    if slots.len() > 0 && slots.last() is None {
        let shorter = slots.drop_last();
        lemma_trimmed(shorter);
        assert forall|k: int| trimmed(slots).len() <= k < slots.len() implies (
        #[trigger] slots[k]) is None by {
            if k < shorter.len() {
                assert(shorter[k] is None);
            }
        }
    }
}

/// Mutable access to the value of a slot that is occupied under `generation`.
fn slot_obj_mut<T>(slot: &mut Option<Slot<T>>, generation: u64) -> (found: Option<&mut T>)
    ensures
        match found {
            Some(obj) => {
                &&& *old(slot) is Some
                &&& old(slot)->0.generation == generation
                &&& *obj == old(slot)->0.obj
                &&& *final(slot) == Some(Slot { obj: *final(obj), generation })
            },
            None => {
                &&& !(*old(slot) is Some && old(slot)->0.generation == generation)
                &&& *final(slot) == *old(slot)
            },
        },
{
    match slot {
        Some(cell) => {
            if cell.generation == generation {
                Some(&mut cell.obj)
            } else {
                None
            }
        },
        None => None,
    }
}

/// Slot storage with generation-checked handles.
pub struct Arena<T> {
    vec: Vec<Option<Slot<T>>>,
    cur_generation: u64,
    count: u32,
}

impl<T> View for Arena<T> {
    type V = ArenaModel<T>;

    closed spec fn view(&self) -> ArenaModel<T> {
        ArenaModel { slots: self.vec@, generation: self.cur_generation as nat }
    }
}

impl<T> Arena<T> {
    /// The representation agrees with the model: the live count is cached
    /// and every index fits a handle.
    pub closed spec fn inv(&self) -> bool {
        &&& self.vec@.len() <= u32::MAX
        &&& self.count == occupied(self.vec@)
    }

    pub open spec fn wf(&self) -> bool {
        &&& self@.wf()
        &&& self.inv()
        &&& self@.slots.len() <= u32::MAX
        &&& self@.generation <= u64::MAX
    }

    /// Whether one more insertion fits the handle's index and generation.
    pub open spec fn room(&self) -> bool {
        self@.generation < u64::MAX && self@.slots.len() < u32::MAX
    }

    pub fn new() -> (arena: Self)
        ensures
            arena.wf(),
            arena@ == ArenaModel::<T>::empty(),
    {
        Arena { vec: Vec::new(), cur_generation: 0, count: 0 }
    }

    /// Number of live values.
    pub fn count(&self) -> (n: u32)
        requires
            self.wf(),
        ensures
            n == self@.count(),
    {
        self.count
    }

    pub fn has_room(&self) -> (ok: bool)
        requires
            self.wf(),
        ensures
            ok == self.room(),
    {
        self.cur_generation < u64::MAX && self.vec.len() < 0xffff_ffff
    }

    /// How many more insertions fit the handle's index and generation.
    pub fn room_left(&self) -> (left: u64)
        requires
            self.wf(),
        ensures
            left == if u64::MAX - self@.generation < u32::MAX - self@.slots.len() {
                u64::MAX - self@.generation
            } else {
                u32::MAX - self@.slots.len()
            },
    {
        let by_generation: u64 = u64::MAX - self.cur_generation;
        let by_index: u64 = 0xffff_ffff - self.vec.len() as u64;
        if by_generation < by_index {
            by_generation
        } else {
            by_index
        }
    }

    fn find_unused_idx(&self) -> (found: Option<u32>)
        requires
            self.wf(),
        ensures
            match found {
                Some(idx) => idx == first_free_from(self@.slots, 0) && idx < self@.slots.len(),
                None => first_free_from(self@.slots, 0) == self@.slots.len(),
            },
    {
        let mut i: usize = 0;
        while i < self.vec.len()
            invariant
                self.wf(),
                i <= self.vec@.len(),
                first_free_from(self.vec@, 0) == first_free_from(self.vec@, i as int),
            decreases self.vec@.len() - i,
        {
            if self.vec[i].is_none() {
                return Some(i as u32);
            }
            i += 1;
        }
        None
    }

    /// The handle that the next call of [`Arena::add`] returns.
    pub fn next_handle(&self) -> (h: Handle)
        requires
            self.wf(),
            self.room(),
        ensures
            h == self@.next_handle(),
    {
        let idx: u32 = match self.find_unused_idx() {
            Some(idx) => idx,
            None => self.vec.len() as u32,
        };
        Handle { idx, generation: self.cur_generation + 1 }
    }

    /// Stores `obj` in the first empty slot, or in a new last slot, under a
    /// generation that no handle has carried before.
    pub fn add(&mut self, obj: T) -> (h: Handle)
        requires
            old(self).wf(),
            old(self).room(),
        ensures
            final(self).wf(),
            final(self)@ == old(self)@.add(obj),
            h == old(self)@.next_handle(),
            h.generation == final(self)@.generation,
            !old(self)@.live(h),
            final(self)@.get(h) == Some(obj),
            final(self)@.count() == old(self)@.count() + 1,
            forall|o: Handle| o != h ==> final(self)@.get(o) == old(self)@.get(o),
    {
        proof {
            lemma_first_free(self.vec@, 0);
            lemma_occupied_bound(self.vec@);
        }
        let unused_idx = self.find_unused_idx();
        self.cur_generation += 1;
        let cell = Slot { obj, generation: self.cur_generation };
        let ghost before = self.vec@;
        let idx: u32 = match unused_idx {
            Some(idx) => {
                proof {
                    lemma_occupied_update(before, idx as int, Some(cell));
                }
                self.vec[idx as usize] = Some(cell);
                idx
            },
            None => {
                proof {
                    lemma_occupied_push(before, Some(cell));
                }
                let idx = self.vec.len() as u32;
                self.vec.push(Some(cell));
                idx
            },
        };
        self.count += 1;
        let h = Handle { idx, generation: self.cur_generation };
        proof {
            assert(self@.slots =~= old(self)@.add(obj).slots);
            assert(self@.slots[idx as int] == Some(cell));
            assert forall|o: Handle| o != h implies self@.get(o) == old(self)@.get(o) by {
                if o.idx == h.idx {
                    if (o.idx as int) < before.len() && before[o.idx as int] is Some {
                    }
                } else {
                    if (o.idx as int) < before.len() {
                        assert(self@.slots[o.idx as int] == before[o.idx as int]);
                    }
                }
            }
        }
        h
    }

    fn shrink(&mut self)
        requires
            old(self).vec@.len() <= u32::MAX,
        ensures
            final(self).vec@ == trimmed(old(self).vec@),
            final(self).cur_generation == old(self).cur_generation,
            final(self).count == old(self).count,
    {
        while self.vec.len() > 0 && self.vec[self.vec.len() - 1].is_none()
            invariant
                trimmed(self.vec@) == trimmed(old(self).vec@),
                self.cur_generation == old(self).cur_generation,
                self.count == old(self).count,
            decreases self.vec@.len(),
        {
            self.vec.pop();
        }
    }

    /// Removes the value under `handle` if the handle is live; a stale or
    /// unknown handle changes nothing.
    pub fn remove(&mut self, handle: &Handle)
        requires
            old(self).wf(),
        ensures
            final(self).wf(),
            final(self)@ == old(self)@.remove(*handle),
            !final(self)@.live(*handle),
            final(self)@.get(*handle) is None,
            final(self)@.count() == old(self)@.count() - if old(self)@.live(*handle) {
                1nat
            } else {
                0nat
            },
            forall|o: Handle| o != *handle ==> final(self)@.get(o) == old(self)@.get(o),
    {
        if handle.idx as usize >= self.vec.len() {
            return ;
        }
        let matches = match &self.vec[handle.idx as usize] {
            Some(cell) => cell.generation == handle.generation,
            None => false,
        };
        if matches {
            let ghost before = self.vec@;
            let ghost emptied = before.update(handle.idx as int, None);
            proof {
                lemma_occupied_update(before, handle.idx as int, None);
                lemma_trimmed(emptied);
                lemma_occupied_bound(before);
            }
            self.vec[handle.idx as usize] = None;
            self.count -= 1;
            self.shrink();
            proof {
                let after = self.vec@;
                assert(after == trimmed(emptied));
                assert forall|k: int| 0 <= k < after.len() implies #[trigger] after[k]
                    == emptied[k] by {
                    assert(after[k] == emptied.subrange(0, after.len() as int)[k]);
                }
                assert forall|o: Handle| o != *handle implies self@.get(o) == old(self)@.get(
                    o,
                ) by {
                    if (o.idx as int) < after.len() {
                        assert(after[o.idx as int] == emptied[o.idx as int]);
                    } else if (o.idx as int) < before.len() {
                        assert(emptied[o.idx as int] is None);
                        if o.idx == handle.idx {
                        } else {
                            assert(before[o.idx as int] is None);
                        }
                    }
                }
                assert(self@.wf()) by {
                    assert forall|i: int|
                        0 <= i < after.len() && #[trigger] after[i] is Some implies 1
                        <= after[i]->0.generation <= self@.generation by {
                        assert(after[i] == emptied[i]);
                        assert(before[i] is Some);
                    }
                    assert forall|i: int, j: int|
                        0 <= i < after.len() && 0 <= j < after.len() && i != j
                            && #[trigger] after[i] is Some
                            && #[trigger] after[j] is Some implies after[i]->0.generation
                        != after[j]->0.generation by {
                        assert(after[i] == emptied[i]);
                        assert(after[j] == emptied[j]);
                        assert(before[i] is Some);
                        assert(before[j] is Some);
                    }
                }
            }
        }
    }

    /// Whether `handle` is live.
    pub fn contains(&self, handle: &Handle) -> (live: bool)
        requires
            self.wf(),
        ensures
            live == self@.live(*handle),
    {
        if handle.idx as usize >= self.vec.len() {
            return false;
        }
        match &self.vec[handle.idx as usize] {
            Some(cell) => cell.generation == handle.generation,
            None => false,
        }
    }

    /// The value under `handle`, or nothing if the handle is stale or unknown.
    pub fn get(&self, handle: &Handle) -> (found: Option<&T>)
        requires
            self.wf(),
        ensures
            match found {
                Some(obj) => self@.get(*handle) == Some(*obj),
                None => self@.get(*handle) is None,
            },
    {
        if handle.idx as usize >= self.vec.len() {
            return None;
        }
        match &self.vec[handle.idx as usize] {
            Some(cell) => {
                if cell.generation == handle.generation {
                    Some(&cell.obj)
                } else {
                    None
                }
            },
            None => None,
        }
    }

    /// Mutable access to the value under `handle`; whatever the caller
    /// writes through it is what the arena then holds there.
    pub fn get_mut(&mut self, handle: &Handle) -> (found: Option<&mut T>)
        requires
            old(self).wf(),
        ensures
            match found {
                Some(obj) => old(self)@.get(*handle) == Some(*obj) && final(self)@ == old(
                    self,
                )@.set(*handle, *final(obj)),
                None => old(self)@.get(*handle) is None && final(self)@ == old(self)@,
            },
            final(self).wf(),
    {
        if !self.contains(handle) {
            return None;
        }
        proof {
            assert forall|value: T| (#[trigger] self@.set(*handle, value)).wf() && occupied(
                self@.set(*handle, value).slots,
            ) == occupied(self@.slots) by {
                lemma_set(self@, *handle, value);
            }
        }
        slot_obj_mut(&mut self.vec[handle.idx as usize], handle.generation)
    }

    /// The first live handle, by rising slot index, that `pred` accepts
    /// with its value, or nothing if it accepts none.
    pub fn find<F: Fn(Handle, &T) -> bool>(&self, pred: F) -> (found: Option<Handle>)
        requires
            self.wf(),
            forall|h: Handle| #[trigger]
                self@.live(h) ==> pred.requires((h, &self@.slots[h.idx as int]->0.obj)),
        ensures
            match found {
                Some(h) => {
                    &&& self@.live(h)
                    &&& pred.ensures((h, &self@.slots[h.idx as int]->0.obj), true)
                    &&& forall|o: Handle| #[trigger]
                        self@.live(o) && o.idx < h.idx ==> pred.ensures(
                            (o, &self@.slots[o.idx as int]->0.obj),
                            false,
                        )
                },
                None => forall|o: Handle| #[trigger]
                    self@.live(o) ==> pred.ensures((o, &self@.slots[o.idx as int]->0.obj), false),
            },
    {
        let mut i: usize = 0;
        while i < self.vec.len()
            invariant
                self.wf(),
                i <= self.vec@.len(),
                forall|h: Handle| #[trigger]
                    self@.live(h) ==> pred.requires((h, &self@.slots[h.idx as int]->0.obj)),
                forall|o: Handle| #[trigger]
                    self@.live(o) && o.idx < i ==> pred.ensures(
                        (o, &self@.slots[o.idx as int]->0.obj),
                        false,
                    ),
            decreases self.vec@.len() - i,
        {
            match &self.vec[i] {
                Some(cell) => {
                    let handle = Handle { idx: i as u32, generation: cell.generation };
                    assert(self@.live(handle));
                    if pred(handle, &cell.obj) {
                        return Some(handle);
                    }
                },
                None => {},
            }
            i += 1;
        }
        None
    }

    /// The live handles, by rising slot index.
    pub fn handles(&self) -> (all: Vec<Handle>)
        requires
            self.wf(),
        ensures
            all@.len() == self@.count(),
            forall|k: int| 0 <= k < all@.len() ==> self@.live(#[trigger] all@[k]),
            forall|j: int, k: int| 0 <= j < k < all@.len() ==> all@[j].idx < all@[k].idx,
            forall|h: Handle| self@.live(h) ==> all@.contains(h),
    {
        let mut all: Vec<Handle> = Vec::new();
        let mut i: usize = 0;
        while i < self.vec.len()
            invariant
                self.wf(),
                i <= self.vec@.len(),
                all@.len() == occupied(self.vec@.subrange(0, i as int)),
                forall|k: int| 0 <= k < all@.len() ==> self@.live(#[trigger] all@[k]),
                forall|k: int| 0 <= k < all@.len() ==> (#[trigger] all@[k]).idx < i,
                forall|j: int, k: int| 0 <= j < k < all@.len() ==> all@[j].idx < all@[k].idx,
                forall|h: Handle| self@.live(h) && h.idx < i ==> all@.contains(h),
            decreases self.vec@.len() - i,
        {
            let ghost prefix = self.vec@.subrange(0, i as int + 1);
            proof {
                assert(prefix.drop_last() =~= self.vec@.subrange(0, i as int));
            }
            let ghost before = all@;
            match &self.vec[i] {
                Some(cell) => {
                    let h = Handle { idx: i as u32, generation: cell.generation };
                    all.push(h);
                    proof {
                        assert forall|o: Handle| self@.live(o) && o.idx < i + 1 implies all@.contains(
                            o,
                        ) by {
                            if o.idx < i {
                                assert(before.contains(o));
                                let k = choose|k: int| 0 <= k < before.len() && before[k] == o;
                                assert(all@[k] == o);
                            } else {
                                assert(all@[before.len() as int] == o);
                            }
                        }
                    }
                },
                None => {},
            }
            i += 1;
        }
        proof {
            assert(self.vec@.subrange(0, i as int) =~= self.vec@);
        }
        all
    }
}

/// Replacing the value under a live handle keeps the arena well formed and
/// changes what that handle finds, and nothing else.
pub proof fn lemma_set<T>(m: ArenaModel<T>, h: Handle, value: T)
    requires
        m.wf(),
        m.live(h),
    ensures
        m.set(h, value).wf(),
        occupied(m.set(h, value).slots) == occupied(m.slots),
        m.set(h, value).get(h) == Some(value),
        forall|o: Handle| o != h ==> m.set(h, value).get(o) == m.get(o),
        forall|o: Handle| m.set(h, value).live(o) == m.live(o),
{
    let after = m.set(h, value).slots;
    lemma_occupied_update(m.slots, h.idx as int, Some(Slot { obj: value, generation: h.generation }));
    assert forall|i: int| 0 <= i < after.len() && #[trigger] after[i] is Some implies 1
        <= after[i]->0.generation <= m.generation by {
        assert(m.slots[i] is Some);
    }
    assert forall|i: int, j: int|
        0 <= i < after.len() && 0 <= j < after.len() && i != j && #[trigger] after[i] is Some
            && #[trigger] after[j] is Some implies after[i]->0.generation
        != after[j]->0.generation by {
        assert(m.slots[i] is Some);
        assert(m.slots[j] is Some);
    }
    assert forall|o: Handle| o != h implies m.set(h, value).get(o) == m.get(o) by {
        if o.idx == h.idx {
        } else if (o.idx as int) < m.slots.len() {
            assert(after[o.idx as int] == m.slots[o.idx as int]);
        }
    }
}

/// One step of an arena's history.
pub enum ArenaOp<T> {
    Add(T),
    Remove(Handle),
}

impl<T> ArenaModel<T> {
    pub open spec fn step(self, op: ArenaOp<T>) -> Self {
        match op {
            ArenaOp::Add(value) => self.add(value),
            ArenaOp::Remove(h) => self.remove(h),
        }
    }

    /// The arena after the steps of `ops`, first to last.
    pub open spec fn run(self, ops: Seq<ArenaOp<T>>) -> Self
        decreases ops.len(),
    {
        if ops.len() == 0 {
            self
        } else {
            self.run(ops.drop_last()).step(ops.last())
        }
    }
}

/// An insertion keeps the arena well formed, makes the returned handle live
/// with the inserted value, and touches no other handle: live ones keep
/// their value and retired ones stay retired.
pub proof fn lemma_add<T>(m: ArenaModel<T>, value: T)
    requires
        m.wf(),
        m.generation < u64::MAX,
        m.slots.len() < u32::MAX,
    ensures
        m.add(value).wf(),
        m.add(value).generation == m.generation + 1,
        m.add(value).slots.len() <= m.slots.len() + 1,
        m.next_handle().generation == m.generation + 1,
        m.add(value).get(m.next_handle()) == Some(value),
        m.add(value).count() == m.count() + 1,
        !m.live(m.next_handle()),
        forall|h: Handle| h != m.next_handle() ==> m.add(value).get(h) == m.get(h),
        forall|h: Handle| m.retired(h) ==> m.add(value).retired(h),
{
    lemma_first_free(m.slots, 0);
    let after = m.add(value);
    let nh = m.next_handle();
    let cell = Some(Slot { obj: value, generation: (m.generation + 1) as u64 });
    if nh.idx < m.slots.len() {
        lemma_occupied_update(m.slots, nh.idx as int, cell);
    } else {
        lemma_occupied_push(m.slots, cell);
    }
    assert forall|h: Handle| h != nh implies after.get(h) == m.get(h) by {
        if h.idx != nh.idx && (h.idx as int) < m.slots.len() {
            assert(after.slots[h.idx as int] == m.slots[h.idx as int]);
        }
    }
    assert forall|i: int, j: int|
        0 <= i < after.slots.len() && 0 <= j < after.slots.len() && i != j
            && #[trigger] after.slots[i] is Some
            && #[trigger] after.slots[j] is Some implies after.slots[i]->0.generation
        != after.slots[j]->0.generation by {
        if i != nh.idx && j != nh.idx {
            assert(m.slots[i] is Some);
            assert(m.slots[j] is Some);
        } else if i != nh.idx {
            assert(m.slots[i] is Some);
        } else {
            assert(m.slots[j] is Some);
        }
    }
    assert forall|i: int| 0 <= i < after.slots.len() && #[trigger] after.slots[i] is Some implies 1
        <= after.slots[i]->0.generation <= after.generation by {
        if i != nh.idx {
            assert(m.slots[i] is Some);
        }
    }
}

/// A removal keeps the arena well formed, retires the handle, and touches no
/// other handle.
pub proof fn lemma_remove<T>(m: ArenaModel<T>, h: Handle)
    requires
        m.wf(),
    ensures
        m.remove(h).wf(),
        m.remove(h).generation == m.generation,
        m.remove(h).slots.len() <= m.slots.len(),
        m.remove(h).get(h) is None,
        forall|o: Handle| o != h ==> m.remove(h).get(o) == m.get(o),
        forall|o: Handle| m.retired(o) ==> m.remove(h).retired(o),
        m.live(h) ==> m.remove(h).retired(h),
{
    if m.live(h) {
        let emptied = m.slots.update(h.idx as int, None);
        let after = m.remove(h).slots;
        lemma_trimmed(emptied);
        assert forall|k: int| 0 <= k < after.len() implies #[trigger] after[k] == emptied[k] by {
            assert(after[k] == emptied.subrange(0, after.len() as int)[k]);
        }
        assert forall|o: Handle| o != h implies m.remove(h).get(o) == m.get(o) by {
            if (o.idx as int) < after.len() {
                assert(after[o.idx as int] == emptied[o.idx as int]);
            } else if (o.idx as int) < m.slots.len() {
                assert(emptied[o.idx as int] is None);
            }
        }
        assert forall|i: int| 0 <= i < after.len() && #[trigger] after[i] is Some implies 1
            <= after[i]->0.generation <= m.generation by {
            assert(after[i] == emptied[i]);
            assert(m.slots[i] is Some);
        }
        assert forall|i: int, j: int|
            0 <= i < after.len() && 0 <= j < after.len() && i != j && #[trigger] after[i] is Some
                && #[trigger] after[j] is Some implies after[i]->0.generation
            != after[j]->0.generation by {
            assert(after[i] == emptied[i]);
            assert(after[j] == emptied[j]);
            assert(m.slots[i] is Some);
            assert(m.slots[j] is Some);
        }
        if (h.idx as int) < after.len() {
            assert(after[h.idx as int] == emptied[h.idx as int]);
        }
    }
}

/// Whether `ops` holds a removal of exactly `h`.
pub open spec fn removes<T>(ops: Seq<ArenaOp<T>>, h: Handle) -> bool {
    exists|k: int| 0 <= k < ops.len() && #[trigger] ops[k] == ArenaOp::<T>::Remove(h)
}

/// Whether the arena has room for every insertion of `ops`.
pub open spec fn fits<T>(m: ArenaModel<T>, ops: Seq<ArenaOp<T>>) -> bool {
    m.generation + ops.len() <= u64::MAX && m.slots.len() + ops.len() <= u32::MAX
}

/// Any history keeps the arena well formed and only ever raises the
/// generation counter, by at most one per step.
pub proof fn lemma_run_wf<T>(m: ArenaModel<T>, ops: Seq<ArenaOp<T>>)
    requires
        m.wf(),
        fits(m, ops),
    ensures
        m.run(ops).wf(),
        m.generation <= m.run(ops).generation <= m.generation + ops.len(),
        m.run(ops).slots.len() <= m.slots.len() + ops.len(),
    decreases ops.len(),
{
    if ops.len() > 0 {
        lemma_run_wf(m, ops.drop_last());
        let mid = m.run(ops.drop_last());
        match ops.last() {
            ArenaOp::Add(value) => lemma_add(mid, value),
            ArenaOp::Remove(h) => lemma_remove(mid, h),
        }
    }
}

/// A live handle stays retrievable, with its value, through any history
/// that does not remove exactly that handle.
pub proof fn lemma_live_until_removed<T>(m: ArenaModel<T>, ops: Seq<ArenaOp<T>>, h: Handle)
    requires
        m.wf(),
        fits(m, ops),
        m.live(h),
        !removes(ops, h),
    ensures
        m.run(ops).get(h) == m.get(h),
    decreases ops.len(),
{
    if ops.len() > 0 {
        let shorter = ops.drop_last();
        assert(!removes(shorter, h)) by {
            if removes(shorter, h) {
                let k = choose|k: int|
                    0 <= k < shorter.len() && #[trigger] shorter[k] == ArenaOp::<T>::Remove(h);
                assert(ops[k] == ArenaOp::<T>::Remove(h));
            }
        }
        lemma_live_until_removed(m, shorter, h);
        lemma_run_wf(m, shorter);
        let mid = m.run(shorter);
        match ops.last() {
            ArenaOp::Add(value) => {
                lemma_add(mid, value);
                assert(mid.live(h));
                assert(h.generation <= mid.generation);
            },
            ArenaOp::Remove(o) => {
                lemma_remove(mid, o);
                assert(ops[ops.len() - 1] == ArenaOp::<T>::Remove(o));
            },
        }
    }
}

/// A retired handle finds nothing after any history: removal is final, also
/// where later insertions reuse the slot.
pub proof fn lemma_retired_forever<T>(m: ArenaModel<T>, ops: Seq<ArenaOp<T>>, h: Handle)
    requires
        m.wf(),
        fits(m, ops),
        m.retired(h),
    ensures
        m.run(ops).retired(h),
        m.run(ops).get(h) is None,
    decreases ops.len(),
{
    if ops.len() > 0 {
        let shorter = ops.drop_last();
        lemma_retired_forever(m, shorter, h);
        lemma_run_wf(m, shorter);
        let mid = m.run(shorter);
        match ops.last() {
            ArenaOp::Add(value) => lemma_add(mid, value),
            ArenaOp::Remove(o) => lemma_remove(mid, o),
        }
    }
}

/// After a handle was removed, no later history makes it retrievable again.
pub proof fn lemma_removed_stays_removed<T>(m: ArenaModel<T>, h: Handle, ops: Seq<ArenaOp<T>>)
    requires
        m.wf(),
        m.live(h),
        fits(m, ops),
    ensures
        m.remove(h).run(ops).get(h) is None,
{
    lemma_remove(m, h);
    lemma_retired_forever(m.remove(h), ops, h);
}

} // verus!
