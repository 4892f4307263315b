//! A dynamic dereference table that maps tiny pointers (compact indices
//! augmented with generation counters) to values of type `T`.
//!
//! The table keeps a free list of available slots and doubles its capacity
//! when the free list runs out, while preserving the validity of every
//! handle that is currently allocated. When a slot is freed, its generation
//! counter advances, so any pointer still holding the old generation is
//! detected as stale instead of reaching the slot's new occupant.
//!
//! The generation counter wraps around at the top of the `u32` range; a
//! handle kept across exactly 2^32 frees of its slot would collide with a
//! fresh one. This is a documented, accepted limitation.

use vstd::prelude::*;

verus! {

/// A generational tiny pointer: an index naming a slot of the table,
/// plus the generation tag of the occupancy period it was issued for.
///
/// Two pointers are equal exactly when both fields are equal. A pointer
/// carries no ownership; all validity checking happens inside the table.
#[derive(Copy, Clone, Debug, PartialEq, Eq, Hash, Structural)]
pub struct TinyPointer {
    index: u32,
    generation: u32,
}

impl TinyPointer {
    /// The slot position this pointer refers to.
    pub closed spec fn spec_index(&self) -> usize {
        self.index as usize
    }

    /// The generation tag carried by this pointer.
    pub closed spec fn spec_generation(&self) -> u32 {
        self.generation
    }

    /// Returns the index associated with this pointer.
    #[verifier::when_used_as_spec(spec_index)]
    pub fn index(&self) -> (i: usize)
        ensures
            i == self.spec_index(),
    {
        self.index as usize
    }

    /// Returns the generation stored in this pointer.
    #[verifier::when_used_as_spec(spec_generation)]
    pub fn generation(&self) -> (g: u32)
        ensures
            g == self.spec_generation(),
    {
        self.generation
    }
}

/// The generation tag a slot carries after one more free: it advances by
/// one and wraps around at the top of the `u32` range.
pub open spec fn next_gen(g: u32) -> u32 {
    if g == u32::MAX {
        0u32
    } else {
        (g + 1) as u32
    }
}

/// A slot of the table: an optional stored value and the generation
/// counter distinguishing its occupancy periods.
struct Slot<T> {
    value: Option<T>,
    generation: u32,
}

/// The mathematical model of one slot.
#[verifier::ext_equal]
pub ghost struct SlotModel<T> {
    pub value: Option<T>,
    pub generation: u32,
}

/// The mathematical model of the whole table: the slots in index order,
/// and the free list as the sequence of slot indices available for reuse.
#[verifier::ext_equal]
pub ghost struct TableModel<T> {
    pub slots: Seq<SlotModel<T>>,
    pub free: Seq<usize>,
}

/// How many slots of `slots` are free (hold no value).
pub open spec fn count_free<T>(slots: Seq<SlotModel<T>>) -> nat
    decreases slots.len(),
{
    if slots.len() == 0 {
        0
    } else {
        count_free(slots.drop_last()) + (if slots.last().value is None {
            1nat
        } else {
            0nat
        })
    }
}

proof fn lemma_count_free_le_len<T>(slots: Seq<SlotModel<T>>)
    ensures
        count_free(slots) <= slots.len(),
    decreases slots.len(),
{
    if slots.len() > 0 {
        lemma_count_free_le_len(slots.drop_last());
    }
}

proof fn lemma_count_free_all_free<T>(slots: Seq<SlotModel<T>>)
    requires
        forall|i: int| 0 <= i < slots.len() ==> (#[trigger] slots[i]).value is None,
    ensures
        count_free(slots) == slots.len(),
    decreases slots.len(),
{
    if slots.len() > 0 {
        lemma_count_free_all_free(slots.drop_last());
    }
}

proof fn lemma_count_free_push<T>(slots: Seq<SlotModel<T>>, s: SlotModel<T>)
    ensures
        count_free(slots.push(s)) == count_free(slots) + (if s.value is None {
            1nat
        } else {
            0nat
        }),
{
    assert(slots.push(s).drop_last() =~= slots);
    assert(slots.push(s).last() == s);
}

proof fn lemma_count_free_update<T>(slots: Seq<SlotModel<T>>, i: int, s: SlotModel<T>)
    requires
        0 <= i < slots.len(),
    ensures
        count_free(slots.update(i, s)) + (if slots[i].value is None {
            1nat
        } else {
            0nat
        }) == count_free(slots) + (if s.value is None {
            1nat
        } else {
            0nat
        }),
    decreases slots.len(),
{
    if i == slots.len() - 1 {
        assert(slots.update(i, s).drop_last() =~= slots.drop_last());
        assert(slots.update(i, s).last() == s);
    } else {
        assert(slots.update(i, s).drop_last() =~= slots.drop_last().update(i, s));
        assert(slots.update(i, s).last() == slots.last());
        lemma_count_free_update(slots.drop_last(), i, s);
    }
}

impl<T> TableModel<T> {
    /// The number of slots the table currently holds.
    pub open spec fn capacity(self) -> nat {
        self.slots.len()
    }

    /// The number of occupied slots: total slots minus free-list entries.
    pub open spec fn allocated(self) -> int {
        self.slots.len() - self.free.len()
    }

    /// A pointer is valid exactly when its index is in range, the slot it
    /// names is occupied, and its generation matches the slot's current one.
    pub open spec fn valid(self, p: TinyPointer) -> bool {
        &&& p.index() < self.slots.len()
        &&& self.slots[p.index() as int].generation == p.generation()
        &&& self.slots[p.index() as int].value is Some
    }

    /// Well-formedness: capacity is positive and small enough that every
    /// index fits in a pointer; the free list names exactly the free slots,
    /// each once, so its length equals the number of free slots.
    pub open spec fn wf(self) -> bool {
        &&& 0 < self.slots.len() <= u32::MAX
        &&& (forall|k: int|
            0 <= k < self.free.len() ==> (#[trigger] self.free[k]) < self.slots.len()
                && self.slots[self.free[k] as int].value is None)
        &&& (forall|k: int, l: int|
            #![trigger self.free[k], self.free[l]]
            0 <= k < l < self.free.len() ==> self.free[k] != self.free[l])
        &&& (forall|j: int|
            0 <= j < self.slots.len() && (#[trigger] self.slots[j]).value is None
                ==> self.free.contains(j as usize))
        &&& self.free.len() == count_free(self.slots)
    }

    /// The model after one capacity doubling: as many new free slots at
    /// generation 0 as the table already had, their indices appended to
    /// the free list in increasing order. Existing slots are untouched.
    pub open spec fn grow_step(self) -> TableModel<T> {
        TableModel {
            slots: self.slots + Seq::new(
                self.slots.len(),
                |i: int| SlotModel { value: None, generation: 0u32 },
            ),
            free: self.free + Seq::new(
                self.slots.len(),
                |i: int| (self.slots.len() + i) as usize,
            ),
        }
    }
}

/// What one `allocate` call does to the model: the table grows first if
/// the free list is empty; then the most recently listed free index is
/// taken, the value is stored there, and the returned pointer carries that
/// slot's current generation. Free-slot reuse is thus last-in-first-out;
/// callers should not rely on this order, only on the facts stated here.
pub open spec fn allocate_step<T>(
    pre: TableModel<T>,
    post: TableModel<T>,
    p: TinyPointer,
    v: T,
) -> bool {
    let mid = if pre.free.len() == 0 {
        pre.grow_step()
    } else {
        pre
    };
    &&& mid.free.len() > 0
    &&& p.index() == mid.free.last()
    &&& p.generation() == mid.slots[p.index() as int].generation
    &&& post.slots == mid.slots.update(
        p.index() as int,
        SlotModel { value: Some(v), generation: p.generation() },
    )
    &&& post.free == mid.free.drop_last()
}

/// What one `free` call does to the model: a valid pointer removes and
/// returns its value, advances the slot's generation, and appends the
/// index to the free list; any other pointer returns nothing and changes
/// nothing.
pub open spec fn free_step<T>(
    pre: TableModel<T>,
    post: TableModel<T>,
    p: TinyPointer,
    r: Option<T>,
) -> bool {
    if pre.valid(p) {
        &&& r == Some(pre.slots[p.index() as int].value.unwrap())
        &&& post.slots == pre.slots.update(
            p.index() as int,
            SlotModel { value: None, generation: next_gen(p.generation()) },
        )
        &&& post.free == pre.free.push(p.index())
    } else {
        &&& r is None
        &&& post == pre
    }
}

/// A dynamic dereference table using generational tiny pointers.
///
/// Values of type `T` live in a vector of slots; a free list tracks the
/// available indices, and the table doubles its capacity when the free
/// list runs out. A pointer reaches its value only while its generation
/// matches the slot's current one.
///
/// The table is a single-owner, single-threaded container: it does no
/// internal locking, and concurrent mutation needs external
/// synchronization. References handed out by `get` and `get_mut` must not
/// be held across any call that could resize or free.
pub struct DynamicTinyPointerTable<T> {
    slots: Vec<Slot<T>>,
    free_list: Vec<usize>,
}

/// The model of one stored slot.
spec fn slot_model<T>(s: Slot<T>) -> SlotModel<T> {
    SlotModel { value: s.value, generation: s.generation }
}

/// The model of the whole slot vector, in index order.
spec fn slots_model<T>(slots: Seq<Slot<T>>) -> Seq<SlotModel<T>> {
    Seq::new(slots.len(), |i: int| slot_model(slots[i]))
}

broadcast proof fn lemma_slots_model_update<T>(slots: Seq<Slot<T>>, i: int, s: Slot<T>)
    requires
        0 <= i < slots.len(),
    ensures
        #[trigger] slots_model(slots.update(i, s)) == slots_model(slots).update(
            i,
            slot_model(s),
        ),
{
    assert(slots_model(slots.update(i, s)) =~= slots_model(slots).update(i, slot_model(s)));
}

impl<T> View for DynamicTinyPointerTable<T> {
    type V = TableModel<T>;

    closed spec fn view(&self) -> TableModel<T> {
        TableModel { slots: slots_model(self.slots@), free: self.free_list@ }
    }
}

impl<T> DynamicTinyPointerTable<T> {
    /// Creates a new table with the specified initial capacity: that many
    /// free slots at generation 0, with every index seeded into the free
    /// list in increasing order.
    ///
    /// Constructing a table with zero capacity is a programmer error and
    /// is excluded by precondition; so is a capacity whose indices would
    /// not fit in a pointer.
    pub fn new(initial_capacity: usize) -> (table: Self)
        requires
            0 < initial_capacity <= u32::MAX,
        ensures
            table@.wf(),
            table@.capacity() == initial_capacity,
            table@.allocated() == 0,
            table@.free.len() == initial_capacity,
            forall|j: int|
                0 <= j < initial_capacity ==> #[trigger] table@.slots[j] == (SlotModel::<T> {
                    value: None,
                    generation: 0u32,
                }),
            forall|k: int| 0 <= k < initial_capacity ==> #[trigger] table@.free[k] == k as usize,
    {
        let mut slots: Vec<Slot<T>> = Vec::with_capacity(initial_capacity);
        let mut free_list: Vec<usize> = Vec::with_capacity(initial_capacity);
        let mut i: usize = 0;
        while i < initial_capacity
            invariant
                i <= initial_capacity,
                slots@.len() == i,
                free_list@.len() == i,
                forall|j: int|
                    0 <= j < i ==> (#[trigger] slots@[j]).value is None && slots@[j].generation
                        == 0,
                forall|k: int| 0 <= k < i ==> #[trigger] free_list@[k] == k as usize,
            decreases initial_capacity - i,
        {
            slots.push(Slot { value: None, generation: 0 });
            free_list.push(i);
            i += 1;
        }
        let table = (Self { slots, free_list });
        proof {
            let m = table@;
            assert forall|j: int|
                0 <= j < m.slots.len() && (#[trigger] m.slots[j]).value is None implies m
                .free.contains(j as usize) by {
                assert(m.free[j] == j as usize);
            }
            assert forall|i2: int| 0 <= i2 < m.slots.len() implies (#[trigger] m.slots[i2]).value
                is None by {}
            lemma_count_free_all_free(m.slots);
        }
        table
    }

    /// Returns the current total capacity of the table.
    pub fn capacity(&self) -> (c: usize)
        ensures
            c == self@.capacity(),
    {
        self.slots.len()
    }

    /// Returns the number of allocated (non-free) entries.
    pub fn allocated(&self) -> (n: usize)
        requires
            self@.wf(),
        ensures
            n == self@.allocated(),
            0 <= self@.allocated() <= self@.capacity(),
    {
        proof {
            lemma_count_free_le_len(self@.slots);
        }
        self.slots.len() - self.free_list.len()
    }

    /// Returns a reference to the value `ptr` names, or `None` if the
    /// index is out of range, the slot is free, or the generation does not
    /// match the slot's current one.
    pub fn get(&self, ptr: TinyPointer) -> (r: Option<&T>)
        ensures
            r is Some <==> self@.valid(ptr),
            r matches Some(v) ==> *v == self@.slots[ptr.index() as int].value.unwrap(),
    {
        let idx = ptr.index();
        if idx < self.slots.len() {
            let slot = &self.slots[idx];
            if slot.generation == ptr.generation() {
                slot.value.as_ref()
            } else {
                None
            }
        } else {
            None
        }
    }

    /// Doubles the table's capacity: appends as many new free slots at
    /// generation 0 as the table already had, and adds their indices to
    /// the free list. Called from `allocate` when no free slot remains;
    /// never invalidates an existing handle.
    ///
    /// The capacity is bounded so that every slot index keeps fitting in
    /// a pointer.
    pub fn resize(&mut self)
        requires
            old(self)@.wf(),
            2 * old(self)@.capacity() <= u32::MAX,
        ensures
            final(self)@.wf(),
            final(self)@ == old(self)@.grow_step(),
            final(self)@.capacity() == 2 * old(self)@.capacity(),
            final(self)@.allocated() == old(self)@.allocated(),
            forall|q: TinyPointer|
                old(self)@.valid(q) ==> #[trigger] final(self)@.valid(q) && final(self)@.slots[q.index() as int] == old(self)@.slots[q.index() as int],
    {
        let old_capacity = self.slots.len();
        let new_capacity = old_capacity * 2;
        self.slots.reserve(new_capacity - old_capacity);
        let mut i: usize = old_capacity;
        while i < new_capacity
            invariant
                old(self)@.wf(),
                old_capacity == old(self)@.capacity(),
                new_capacity == 2 * old_capacity,
                new_capacity <= u32::MAX,
                old_capacity <= i <= new_capacity,
                self@.slots.len() == i,
                self@.free.len() == old(self)@.free.len() + (i - old_capacity),
                count_free(self@.slots) == count_free(old(self)@.slots) + (i - old_capacity),
                forall|j: int|
                    0 <= j < old_capacity ==> #[trigger] self@.slots[j] == old(self)@.slots[j],
                forall|j: int|
                    old_capacity <= j < i ==> #[trigger] self@.slots[j] == (SlotModel::<T> {
                        value: None,
                        generation: 0u32,
                    }),
                forall|k: int|
                    0 <= k < old(self)@.free.len() ==> #[trigger] self@.free[k] == old(self)@.free[k],
                forall|k: int|
                    old(self)@.free.len() <= k < self@.free.len() ==> #[trigger] self@.free[k]
                        == (old_capacity + (k - old(self)@.free.len())) as usize,
            decreases new_capacity - i,
        {
            let ghost pre_slots = self@.slots;
            self.slots.push(Slot { value: None, generation: 0 });
            self.free_list.push(i);
            proof {
                assert(self@.slots =~= pre_slots.push(
                    SlotModel { value: None, generation: 0u32 },
                ));
                lemma_count_free_push(pre_slots, SlotModel { value: None, generation: 0u32 });
            }
            i += 1;
        }
        proof {
            let pre = old(self)@;
            let post = self@;
            assert(post.slots =~= pre.grow_step().slots);
            assert(post.free =~= pre.grow_step().free);
            assert(post =~= pre.grow_step());
            // well-formedness of the grown table
            assert forall|k: int|
                0 <= k < post.free.len() implies (#[trigger] post.free[k]) < post.slots.len()
                && post.slots[post.free[k] as int].value is None by {
                if k < pre.free.len() {
                    assert(pre.free[k] < pre.slots.len());
                    assert(post.slots[pre.free[k] as int] == pre.slots[pre.free[k] as int]);
                }
            }
            assert forall|k: int, l: int|
                0 <= k < l < post.free.len() implies post.free[k] != post.free[l] by {
                if l < pre.free.len() {
                    assert(pre.free[k] != pre.free[l]);
                } else if k < pre.free.len() {
                    assert(pre.free[k] < old_capacity);
                }
            }
            assert forall|j: int|
                0 <= j < post.slots.len() && (#[trigger] post.slots[j]).value is None implies post
                .free.contains(j as usize) by {
                if j < old_capacity {
                    assert(pre.slots[j].value is None);
                    let k = choose|k: int|
                        0 <= k < pre.free.len() && pre.free[k] == j as usize;
                    assert(post.free[k] == j as usize);
                } else {
                    assert(post.free[pre.free.len() + (j - old_capacity)] == j as usize);
                }
            }
            assert forall|q: TinyPointer| pre.valid(q) implies #[trigger] post.valid(q)
                && post.slots[q.index() as int] == pre.slots[q.index() as int] by {
                assert(post.slots[q.index() as int] == pre.slots[q.index() as int]);
            }
        }
    }

    /// Allocates a slot for `value`, growing the table first if no free
    /// slot remains, and returns a pointer carrying the chosen slot's
    /// current generation. The slot taken is the most recently listed free
    /// index; no previously valid handle is disturbed, and the returned
    /// pointer was valid for no earlier state of the table.
    ///
    /// This operation is amortized constant-time.
    pub fn allocate(&mut self, value: T) -> (ptr: TinyPointer)
        requires
            old(self)@.wf(),
            old(self)@.free.len() > 0 || 2 * old(self)@.capacity() <= u32::MAX,
        ensures
            final(self)@.wf(),
            allocate_step(old(self)@, final(self)@, ptr, value),
            final(self)@.valid(ptr),
            !old(self)@.valid(ptr),
            final(self)@.slots[ptr.index() as int].value == Some(value),
            final(self)@.allocated() == old(self)@.allocated() + 1,
            old(self)@.capacity() <= final(self)@.capacity(),
            forall|q: TinyPointer|
                old(self)@.valid(q) ==> #[trigger] final(self)@.valid(q) && final(self)@.slots[q.index() as int].value == old(self)@.slots[q.index() as int].value,
    {
        if self.free_list.len() == 0 {
            self.resize();
        }
        let ghost mid = self@;
        proof {
            assert(mid.free.len() > 0);
        }
        let idx = self.free_list.pop().unwrap();
        proof {
            assert(mid.free[mid.free.len() - 1] == idx);
            assert(idx < mid.slots.len() && mid.slots[idx as int].value is None);
        }
        let slot = vstd::std_specs::vec::vec_index_mut(&mut self.slots, idx);
        let g = slot.generation;
        slot.value = Some(value);
        let ptr = TinyPointer { index: idx as u32, generation: g };
        proof {
            let pre = old(self)@;
            let post = self@;
            assert(ptr.index() == idx);
            let new_slot = (SlotModel { value: Some(value), generation: g });
            assert(post.slots =~= mid.slots.update(idx as int, new_slot));
            assert(post.free =~= mid.free.drop_last());
            // well-formedness after taking the slot
            lemma_count_free_update(mid.slots, idx as int, new_slot);
            assert forall|k: int|
                0 <= k < post.free.len() implies (#[trigger] post.free[k]) < post.slots.len()
                && post.slots[post.free[k] as int].value is None by {
                assert(mid.free[k] < mid.slots.len());
                assert(mid.free[k] != mid.free[mid.free.len() - 1]);
            }
            assert forall|k: int, l: int|
                0 <= k < l < post.free.len() implies post.free[k] != post.free[l] by {
                assert(mid.free[k] != mid.free[l]);
            }
            assert forall|j: int|
                0 <= j < post.slots.len() && (#[trigger] post.slots[j]).value is None implies post
                .free.contains(j as usize) by {
                assert(mid.slots[j].value is None);
                let k = choose|k: int| 0 <= k < mid.free.len() && mid.free[k] == j as usize;
                assert(k != mid.free.len() - 1);
                assert(post.free[k] == j as usize);
            }
            // the returned pointer matched no earlier state
            if pre.free.len() == 0 {
                assert(mid.free[mid.free.len() - 1] == (pre.slots.len() + (pre.slots.len()
                    - 1)) as usize);
            }
            // previously valid handles are untouched
            assert forall|q: TinyPointer| pre.valid(q) implies #[trigger] post.valid(q)
                && post.slots[q.index() as int].value == pre.slots[q.index() as int].value by {
                assert(mid.valid(q) && mid.slots[q.index() as int] == pre.slots[
                    q.index() as int
                ]);
                assert(q.index() != idx);
            }
        }
        ptr
    }

    /// Frees the value `ptr` names and returns it.
    ///
    /// If the pointer is valid (index in range, slot occupied, generation
    /// equal), the value is removed and returned, the slot's generation
    /// advances — invalidating `ptr` and every copy of it — and the index
    /// goes back on the free list. Any other pointer returns `None` and
    /// the table is left exactly as it was, so repeating a free with a
    /// stale pointer is harmless.
    pub fn free(&mut self, ptr: TinyPointer) -> (r: Option<T>)
        requires
            old(self)@.wf(),
        ensures
            final(self)@.wf(),
            free_step(old(self)@, final(self)@, ptr, r),
            r is Some <==> old(self)@.valid(ptr),
            !final(self)@.valid(ptr),
            final(self)@.capacity() == old(self)@.capacity(),
            old(self)@.valid(ptr) ==> final(self)@.allocated() == old(self)@.allocated() - 1,
            forall|q: TinyPointer|
                old(self)@.valid(q) && q != ptr ==> #[trigger] final(self)@.valid(q) && final(self)@.slots[q.index() as int].value == old(self)@.slots[q.index() as int].value,
    {
        let idx = ptr.index();
        if idx < self.slots.len() {
            let slot = vstd::std_specs::vec::vec_index_mut(&mut self.slots, idx);
            if slot.generation == ptr.generation() {
                match slot.value.take() {
                    Some(v) => {
                        slot.generation = if slot.generation == u32::MAX {
                            0
                        } else {
                            slot.generation + 1
                        };
                        self.free_list.push(idx);
                        proof {
                            let pre = old(self)@;
                            let post = self@;
                            let freed_slot = (SlotModel::<T> {
                                value: None,
                                generation: next_gen(ptr.generation()),
                            });
                            assert(post.slots =~= pre.slots.update(idx as int, freed_slot));
                            assert(post.free =~= pre.free.push(idx));
                            lemma_count_free_update(pre.slots, idx as int, freed_slot);
                            // the freed index was not yet on the free list
                            assert forall|k: int|
                                0 <= k < pre.free.len() implies pre.free[k] != idx by {
                                assert(pre.slots[pre.free[k] as int].value is None);
                            }
                            assert forall|k: int, l: int|
                                0 <= k < l < post.free.len() implies post.free[k] != post.free[l]
                            by {
                                if l < pre.free.len() {
                                    assert(pre.free[k] != pre.free[l]);
                                } else {
                                    assert(pre.free[k] != idx);
                                }
                            }
                            assert forall|j: int|
                                0 <= j < post.slots.len() && (#[trigger] post.slots[j]).value
                                    is None implies post.free.contains(j as usize) by {
                                if j != idx {
                                    assert(pre.slots[j].value is None);
                                    let k = choose|k: int|
                                        0 <= k < pre.free.len() && pre.free[k] == j as usize;
                                    assert(post.free[k] == j as usize);
                                } else {
                                    assert(post.free[post.free.len() - 1] == idx);
                                }
                            }
                            assert forall|q: TinyPointer|
                                pre.valid(q) && q != ptr implies #[trigger] post.valid(q)
                                && post.slots[q.index() as int].value == pre.slots[
                                q.index() as int
                            ].value by {
                                assert(q.index() != ptr.index());
                            }
                        }
                        Some(v)
                    },
                    None => {
                        proof {
                            assert(self@.slots =~= old(self)@.slots.update(
                                idx as int,
                                old(self)@.slots[idx as int],
                            ));
                            assert(self@.slots =~= old(self)@.slots);
                            assert(self@ =~= old(self)@);
                        }
                        None
                    },
                }
            } else {
                proof {
                    assert(self@.slots =~= old(self)@.slots.update(
                        idx as int,
                        old(self)@.slots[idx as int],
                    ));
                    assert(self@.slots =~= old(self)@.slots);
                    assert(self@ =~= old(self)@);
                }
                None
            }
        } else {
            None
        }
    }

    /// Returns a mutable reference to the value `ptr` names, or `None` if
    /// the index is out of range, the slot is free, or the generation does
    /// not match. A caller may rewrite the value in place; the slot stays
    /// occupied at the same generation, so `ptr` remains valid.
    pub fn get_mut(&mut self, ptr: TinyPointer) -> (r: Option<&mut T>)
        ensures
            r is Some <==> old(self)@.valid(ptr),
            r is None ==> final(self)@ == old(self)@,
            r is Some ==> *r.unwrap() == old(self)@.slots[ptr.index() as int].value.unwrap()
                && final(self)@.slots == old(self)@.slots.update(
                ptr.index() as int,
                SlotModel { value: Some(*final(r.unwrap())), generation: ptr.generation() },
            ) && final(self)@.free == old(self)@.free,
            final(self)@.capacity() == old(self)@.capacity(),
            old(self)@.valid(ptr) ==> final(self)@.valid(ptr),
            old(self)@.wf() ==> final(self)@.wf(),
    {
        broadcast use lemma_slots_model_update;

        let idx = ptr.index();
        if idx >= self.slots.len() {
            return None;
        }
        let occupied = {
            let slot = &self.slots[idx];
            slot.generation == ptr.generation() && slot.value.is_some()
        };
        if !occupied {
            return None;
        }
        proof {
            if old(self)@.wf() {
                let pre = old(self)@;
                assert forall|s: SlotModel<T>|
                    #![trigger pre.slots.update(idx as int, s)]
                    s.value is Some && s.generation == pre.slots[idx as int].generation implies (
                TableModel { slots: pre.slots.update(idx as int, s), free: pre.free }).wf() by {
                    lemma_count_free_update(pre.slots, idx as int, s);
                    let post = (TableModel {
                        slots: pre.slots.update(idx as int, s),
                        free: pre.free,
                    });
                    assert forall|k: int|
                        0 <= k < post.free.len() implies (#[trigger] post.free[k])
                        < post.slots.len() && post.slots[post.free[k] as int].value is None by {
                        assert(pre.slots[pre.free[k] as int].value is None);
                    }
                    assert forall|j: int|
                        0 <= j < post.slots.len() && (#[trigger] post.slots[j]).value
                            is None implies post.free.contains(j as usize) by {
                        assert(j != idx);
                        assert(pre.slots[j].value is None);
                    }
                }
            }
        }
        let slot = vstd::std_specs::vec::vec_index_mut(&mut self.slots, idx);
        slot.value.as_mut()
    }
}

/// Round-trip law: allocating a value and then freeing through the
/// returned pointer hands exactly that value back.
pub proof fn lemma_allocate_free_round_trip<T>(
    t0: TableModel<T>,
    t1: TableModel<T>,
    t2: TableModel<T>,
    p: TinyPointer,
    v: T,
    r: Option<T>,
)
    requires
        t0.wf(),
        t0.free.len() > 0 || 2 * t0.capacity() <= u32::MAX,
        allocate_step(t0, t1, p, v),
        free_step(t1, t2, p, r),
    ensures
        r == Some(v),
{
    let mid = if t0.free.len() == 0 {
        t0.grow_step()
    } else {
        t0
    };
    if t0.free.len() == 0 {
        assert(mid.free[mid.free.len() - 1] == (t0.slots.len() + (t0.slots.len() - 1)) as usize);
    } else {
        assert(mid.free[mid.free.len() - 1] < mid.slots.len());
    }
    assert(t1.slots[p.index() as int].value == Some(v));
    assert(t1.valid(p));
}

/// Idempotent invalidation, first half: a free through a valid pointer
/// succeeds and leaves that pointer invalid, so by the contracts of
/// `get`, `get_mut` and `free` a use of it against the resulting table
/// yields `None` and changes nothing.
pub proof fn lemma_free_invalidates<T>(
    t0: TableModel<T>,
    t1: TableModel<T>,
    p: TinyPointer,
    r: Option<T>,
)
    requires
        t0.wf(),
        t0.valid(p),
        free_step(t0, t1, p, r),
    ensures
        r == Some(t0.slots[p.index() as int].value.unwrap()),
        !t1.valid(p),
{
    assert(next_gen(p.generation()) != p.generation());
    assert(t1.slots[p.index() as int].value is None);
}

/// Idempotent invalidation, second half: a free through an invalid
/// pointer — for example one already freed once — returns nothing and
/// leaves the table exactly as it was.
pub proof fn lemma_stale_free_no_op<T>(
    t1: TableModel<T>,
    t2: TableModel<T>,
    p: TinyPointer,
    r: Option<T>,
)
    requires
        !t1.valid(p),
        free_step(t1, t2, p, r),
    ensures
        r is None,
        t2 == t1,
{
}

/// Generational isolation: when an allocation reuses the very slot a
/// freed pointer named, the new pointer differs from the old one, the new
/// pointer is valid and reaches the new value, and the old pointer stays
/// invalid.
pub proof fn lemma_generational_isolation<T>(
    t0: TableModel<T>,
    t1: TableModel<T>,
    t2: TableModel<T>,
    h: TinyPointer,
    r: Option<T>,
    p: TinyPointer,
    w: T,
)
    requires
        t0.wf(),
        t0.valid(h),
        free_step(t0, t1, h, r),
        allocate_step(t1, t2, p, w),
        p.index() == h.index(),
    ensures
        p != h,
        t2.valid(p),
        t2.slots[p.index() as int].value == Some(w),
        !t2.valid(h),
{
    assert(t1.free.len() > 0);
    assert(t1.slots[h.index() as int].generation == next_gen(h.generation()));
    assert(p.generation() == next_gen(h.generation()));
    assert(next_gen(h.generation()) != h.generation());
    assert(t2.slots[p.index() as int] == (SlotModel {
        value: Some(w),
        generation: p.generation(),
    }));
}

/// Monotonic capacity under allocation: one allocation keeps the capacity
/// unchanged when a free slot is at hand, and doubles it otherwise; it
/// never shrinks it.
pub proof fn lemma_allocate_capacity<T>(
    pre: TableModel<T>,
    post: TableModel<T>,
    p: TinyPointer,
    v: T,
)
    requires
        pre.wf(),
        pre.free.len() > 0 || 2 * pre.capacity() <= u32::MAX,
        allocate_step(pre, post, p, v),
    ensures
        post.capacity() == if pre.free.len() == 0 {
            2 * pre.capacity()
        } else {
            pre.capacity()
        },
        pre.capacity() <= post.capacity(),
{
    let mid = if pre.free.len() == 0 {
        pre.grow_step()
    } else {
        pre
    };
    if pre.free.len() == 0 {
        assert(mid.free[mid.free.len() - 1] == (pre.slots.len() + (pre.slots.len() - 1)) as usize);
    } else {
        assert(mid.free[mid.free.len() - 1] < mid.slots.len());
    }
    assert(post.slots.len() == mid.slots.len());
}

/// Monotonic capacity under freeing: a free never changes the capacity.
pub proof fn lemma_free_capacity<T>(
    pre: TableModel<T>,
    post: TableModel<T>,
    p: TinyPointer,
    r: Option<T>,
)
    requires
        free_step(pre, post, p, r),
    ensures
        post.capacity() == pre.capacity(),
{
}

/// Occupancy accounting: in a well-formed table the free list is exactly
/// as long as the number of free slots, so the allocated count equals the
/// capacity minus the number of free slots and lies between 0 and the
/// capacity.
pub proof fn lemma_occupancy_accounting<T>(t: TableModel<T>)
    requires
        t.wf(),
    ensures
        t.free.len() == count_free(t.slots),
        t.allocated() == t.capacity() - count_free(t.slots),
        0 <= t.allocated() <= t.capacity(),
{
    lemma_count_free_le_len(t.slots);
}

} // verus!
