//! A table of slots whose items are added and removed atomically.
use crate::aligned::AlignedStorage;
use crate::aligned::SingleStorage;
use crate::atomic::AtomicStorage;
use crate::atomic::Bank;
use crate::atomic::Banks;
use crate::atomic::RawWrite;
use crate::safe::STORAGE_INVALID;
use crate::safe::STORAGE_VALID;
use crate::slots::count_live;
use crate::slots::first_free;
use crate::slots::first_free_slot;
use crate::slots::free_below;
use crate::slots::lemma_item_of_slot;
use crate::slots::lemma_items_agree;
use crate::slots::lemma_items_count;
use crate::slots::live_below;
use crate::slots::slot_of;
use crate::slots::slot_of_index;
use crate::slots::SlotState;
use vstd::array::spec_array_fill_for_copy_type;
use vstd::array::spec_array_update;
use vstd::prelude::*;

verus! {

/// One call of the platform's write primitive on a [`Collection`].
#[derive(Clone, Copy, Debug)]
pub enum TableWrite<T, const N: usize> {
    /// The value of the slot with this number is written.
    Slot(usize, T),
    /// One write to the storage of the flags.
    Flags(RawWrite<[u8; N]>),
}

/// What a [`Collection`] holds in flash: the two buffers of its flags, and
/// the value of each slot.
pub struct TableCells<T, const N: usize> {
    /// The array of flags, as each of its two buffers holds it.
    pub flags: Banks<[u8; N]>,
    /// The value in each slot, allocated or not.
    pub slots: Seq<T>,
}

impl<T, const N: usize> TableCells<T, N> {
    /// Whether the flags can be read: at least one of their two buffers is
    /// valid.
    pub open spec fn readable(self) -> bool {
        self.flags.readable()
    }

    /// What a reader finds: the authoritative flags, and the slots.
    pub open spec fn state(self) -> SlotState<T> {
        SlotState { flags: self.flags.current()@, slots: self.slots }
    }

    /// The content after the write `w` was completed.
    pub open spec fn wrote(self, w: TableWrite<T, N>) -> Self {
        match w {
            TableWrite::Slot(key, value) => TableCells {
                flags: self.flags,
                slots: self.slots.update(key as int, value),
            },
            TableWrite::Flags(write) => TableCells {
                flags: self.flags.wrote(write),
                slots: self.slots,
            },
        }
    }

    /// Whether `post` may be found after power was lost during the write `w`:
    /// of the slot that was written to any mixture of old and new bytes may
    /// be found, and a write to the flags tears as it does in their storage;
    /// all else is untouched.
    pub open spec fn torn_by(self, w: TableWrite<T, N>, post: Self) -> bool {
        match w {
            TableWrite::Slot(key, _) => {
                &&& post.flags == self.flags
                &&& post.slots == self.slots.update(key as int, post.slots[key as int])
            },
            TableWrite::Flags(write) => {
                &&& post.slots == self.slots
                &&& self.flags.torn_by(write, post.flags)
            },
        }
    }

    /// The content after the first `n` writes of `writes` were completed.
    pub open spec fn wrote_first(self, writes: Seq<TableWrite<T, N>>, n: int) -> Self
        decreases n,
    {
        if n <= 0 {
            self
        } else {
            self.wrote_first(writes, n - 1).wrote(writes[n - 1])
        }
    }

    /// Whether `post` may be found after power was lost while `writes` were
    /// made: some of them were completed and the next one was cut short.
    pub open spec fn interrupted(self, writes: Seq<TableWrite<T, N>>, post: Self) -> bool {
        exists|n: int|
            0 <= n < writes.len() && #[trigger] self.wrote_first(writes, n).torn_by(
                writes[n],
                post,
            )
    }

    /// The four writes that update the flags to `new_flags` where `current`
    /// is the authoritative buffer of the flags.
    pub open spec fn flag_writes_from(current: Bank, new_flags: [u8; N]) -> Seq<TableWrite<T, N>> {
        Seq::new(4, |i: int| TableWrite::Flags(Banks::update_writes_from(current, new_flags)[i]))
    }

    /// The five writes that add `value` to a table with a free slot, whose
    /// authoritative flags are `flags`, in buffer `current`: the first free
    /// slot is written, then the flags are updated to show it allocated.
    pub open spec fn add_writes_from(current: Bank, flags: [u8; N], value: T) -> Seq<
        TableWrite<T, N>,
    > {
        seq![TableWrite::Slot(first_free_slot(flags@) as usize, value)] + Self::flag_writes_from(
            current,
            spec_array_update(flags, first_free_slot(flags@), STORAGE_VALID),
        )
    }

    /// The four writes that remove the item at `index`: the flags are
    /// updated to show its slot free.
    pub open spec fn remove_writes_from(current: Bank, flags: [u8; N], index: int) -> Seq<
        TableWrite<T, N>,
    > {
        Self::flag_writes_from(
            current,
            spec_array_update(flags, slot_of(flags@, index), STORAGE_INVALID),
        )
    }

    /// The four writes that remove all items: the flags are updated to show
    /// every slot free.
    pub open spec fn clear_writes_from(current: Bank) -> Seq<TableWrite<T, N>> {
        Self::flag_writes_from(current, spec_array_fill_for_copy_type::<u8, N>(STORAGE_INVALID))
    }

    /// The writes that add `value` to this table. There is none where the
    /// table has no free slot.
    pub open spec fn add_writes(self, value: T) -> Seq<TableWrite<T, N>> {
        if self.state().remaining() > 0 {
            Self::add_writes_from(self.flags.which(), self.flags.current(), value)
        } else {
            Seq::empty()
        }
    }

    /// The writes that remove the item at `index` from this table.
    pub open spec fn remove_writes(self, index: int) -> Seq<TableWrite<T, N>> {
        Self::remove_writes_from(self.flags.which(), self.flags.current(), index)
    }

    /// The writes that clear this table.
    pub open spec fn clear_writes(self) -> Seq<TableWrite<T, N>> {
        Self::clear_writes_from(self.flags.which())
    }

    /// The content after `value` was added: it is written to the first free
    /// slot, then the flags are updated. A table without a free slot stays
    /// as it is.
    pub open spec fn added(self, value: T) -> Self {
        if self.state().remaining() > 0 {
            TableCells {
                flags: self.flags.updated(
                    spec_array_update(
                        self.flags.current(),
                        self.state().free_slot(),
                        STORAGE_VALID,
                    ),
                ),
                slots: self.slots.update(self.state().free_slot(), value),
            }
        } else {
            self
        }
    }

    /// The content after the item at `index` was removed, by an update of
    /// the flags.
    pub open spec fn removed(self, index: int) -> Self {
        TableCells {
            flags: self.flags.updated(
                spec_array_update(self.flags.current(), self.state().key(index), STORAGE_INVALID),
            ),
            slots: self.slots,
        }
    }

    /// The content after all items were removed, by an update of the flags.
    pub open spec fn cleared(self) -> Self {
        TableCells {
            flags: self.flags.updated(spec_array_fill_for_copy_type::<u8, N>(STORAGE_INVALID)),
            slots: self.slots,
        }
    }

    /// Whether `post` may be found after power was lost while `value` was
    /// added.
    pub open spec fn interrupted_add(self, value: T, post: Self) -> bool {
        if self.state().remaining() > 0 {
            self.interrupted(self.add_writes(value), post)
        } else {
            post == self
        }
    }

    /// Whether `post` may be found after power was lost while the item at
    /// `index` was removed.
    pub open spec fn interrupted_remove(self, index: int, post: Self) -> bool {
        self.interrupted(self.remove_writes(index), post)
    }

    /// Whether `post` may be found after power was lost while the table was
    /// cleared.
    pub open spec fn interrupted_clear(self, post: Self) -> bool {
        self.interrupted(self.clear_writes(), post)
    }

    /// What a reader finds after a value was added is what adding the value
    /// makes of what a reader found before.
    pub proof fn lemma_added_state(self, value: T)
        requires
            self.state().capacity() == N,
        ensures
            self.added(value).state() == self.state().added(value),
    {
        broadcast use vstd::array::group_array_axioms;

        if self.state().remaining() > 0 {
            self.state().lemma_free_slot();
            assert(self.added(value).state().flags =~= self.state().added(value).flags);
        }
    }

    /// What a reader finds after an item was removed is what removing the
    /// item makes of what a reader found before.
    pub proof fn lemma_removed_state(self, index: int)
        requires
            self.state().capacity() == N,
            0 <= index < self.state().len(),
        ensures
            self.removed(index).state() == self.state().removed(index),
    {
        broadcast use vstd::array::group_array_axioms;

        self.state().lemma_key(index);
        assert(self.removed(index).state().flags =~= self.state().removed(index).flags);
    }

    /// What a reader finds after the table was cleared is what clearing
    /// makes of what a reader found before.
    pub proof fn lemma_cleared_state(self)
        requires
            self.state().capacity() == N,
        ensures
            self.cleared().state() == self.state().cleared(),
    {
        broadcast use vstd::array::group_array_axioms;

        assert(self.cleared().state().flags =~= self.state().cleared().flags);
    }

    /// The first `n` of the four writes of an update of the flags are the
    /// first `n` writes of that update in the storage of the flags.
    pub proof fn lemma_flag_writes(self, new_flags: [u8; N], n: int)
        requires
            0 <= n <= 4,
        ensures
            self.wrote_first(Self::flag_writes_from(self.flags.which(), new_flags), n) == (
            TableCells {
                flags: self.flags.wrote_first(self.flags.update_writes(new_flags), n),
                slots: self.slots,
            }),
        decreases n,
    {
        if n > 0 {
            self.lemma_flag_writes(new_flags, n - 1);
        }
    }

    /// The writes after a first one are made on what the first one left.
    pub proof fn lemma_wrote_after(
        self,
        first: TableWrite<T, N>,
        rest: Seq<TableWrite<T, N>>,
        n: int,
    )
        requires
            0 <= n <= rest.len(),
        ensures
            self.wrote_first(seq![first] + rest, n + 1) == self.wrote(first).wrote_first(rest, n),
        decreases n,
    {
        let writes = seq![first] + rest;
        if n > 0 {
            self.lemma_wrote_after(first, rest, n - 1);
            assert(writes[n] == rest[n - 1]);
        } else {
            assert(writes[0] == first);
            assert(self.wrote_first(writes, 0) == self);
        }
    }

    /// Adding a value is the sequence of its writes.
    pub proof fn lemma_add_is_its_writes(self, value: T)
        ensures
            self.added(value) == self.wrote_first(
                self.add_writes(value),
                self.add_writes(value).len() as int,
            ),
    {
        if self.state().remaining() > 0 {
            let key = self.state().free_slot();
            let new_flags = spec_array_update(self.flags.current(), key, STORAGE_VALID);
            let first = TableWrite::<T, N>::Slot(key as usize, value);
            let rest = Self::flag_writes_from(self.flags.which(), new_flags);
            self.state().lemma_free_slot();
            self.lemma_wrote_after(first, rest, 4);
            self.wrote(first).lemma_flag_writes(new_flags, 4);
            self.flags.lemma_update_is_its_writes(new_flags);
        }
    }

    /// Removing an item is the sequence of its writes.
    pub proof fn lemma_remove_is_its_writes(self, index: int)
        ensures
            self.removed(index) == self.wrote_first(self.remove_writes(index), 4),
    {
        let new_flags = spec_array_update(
            self.flags.current(),
            self.state().key(index),
            STORAGE_INVALID,
        );
        self.lemma_flag_writes(new_flags, 4);
        self.flags.lemma_update_is_its_writes(new_flags);
    }

    /// Clearing is the sequence of its writes.
    pub proof fn lemma_clear_is_its_writes(self)
        ensures
            self.cleared() == self.wrote_first(self.clear_writes(), 4),
    {
        let new_flags = spec_array_fill_for_copy_type::<u8, N>(STORAGE_INVALID);
        self.lemma_flag_writes(new_flags, 4);
        self.flags.lemma_update_is_its_writes(new_flags);
    }

    /// Adding an item is atomic. Whenever power is lost while a value is
    /// added, the flags can still be read, and the items are those from
    /// before or those with the value added.
    pub proof fn lemma_interrupted_add_is_atomic(self, value: T, post: Self)
        requires
            self.readable(),
            self.state().wf(),
            self.state().capacity() == N,
            self.interrupted_add(value, post),
        ensures
            post.readable(),
            post.state().items() == self.state().items() || post.state().items()
                == self.state().added(value).items(),
    {
        broadcast use vstd::array::group_array_axioms;

        let before = self.state();
        if before.remaining() > 0 {
            let key = before.free_slot();
            before.lemma_free_slot();
            let new_flags = spec_array_update(self.flags.current(), key, STORAGE_VALID);
            let first = TableWrite::<T, N>::Slot(key as usize, value);
            let rest = Self::flag_writes_from(self.flags.which(), new_flags);
            let writes = self.add_writes(value);
            let n = choose|n: int|
                0 <= n < writes.len() && #[trigger] self.wrote_first(writes, n).torn_by(
                    writes[n],
                    post,
                );
            if n > 0 {
                let written = self.wrote(first);
                self.lemma_wrote_after(first, rest, n - 1);
                written.lemma_flag_writes(new_flags, n - 1);
                assert(writes[n] == rest[n - 1]);
                assert(self.flags.wrote_first(self.flags.update_writes(new_flags), n - 1).torn_by(
                    self.flags.update_writes(new_flags)[n - 1],
                    post.flags,
                ));
                self.flags.lemma_interrupted_update_is_atomic(new_flags, post.flags);
                assert(new_flags@ =~= before.added(value).flags);
                assert(post.slots =~= before.added(value).slots);
            }
            if post.state().flags == before.flags {
                lemma_items_agree(
                    before.flags,
                    before.slots,
                    before.flags,
                    post.slots,
                    before.flags.len() as int,
                );
            }
        }
    }

    /// An update of the flags is atomic. Whenever power is lost while the
    /// four writes of an update of the flags are made, the slots are
    /// untouched, the flags can still be read, and they are those from
    /// before or the new ones.
    pub proof fn lemma_interrupted_flag_update_is_atomic(self, new_flags: [u8; N], post: Self)
        requires
            self.readable(),
            self.interrupted(Self::flag_writes_from(self.flags.which(), new_flags), post),
        ensures
            post.readable(),
            post.slots == self.slots,
            post.flags.current() == self.flags.current() || post.flags.current() == new_flags,
    {
        let writes = Self::flag_writes_from(self.flags.which(), new_flags);
        let n = choose|n: int|
            0 <= n < writes.len() && #[trigger] self.wrote_first(writes, n).torn_by(
                writes[n],
                post,
            );
        self.lemma_flag_writes(new_flags, n);
        assert(self.flags.wrote_first(self.flags.update_writes(new_flags), n).torn_by(
            self.flags.update_writes(new_flags)[n],
            post.flags,
        ));
        self.flags.lemma_interrupted_update_is_atomic(new_flags, post.flags);
    }

    /// Removing an item is atomic. Whenever power is lost while an item is
    /// removed, a reader finds the table as it was or with the item removed.
    pub proof fn lemma_interrupted_remove_is_atomic(self, index: int, post: Self)
        requires
            self.readable(),
            self.state().wf(),
            self.state().capacity() == N,
            0 <= index < self.state().len(),
            self.interrupted_remove(index, post),
        ensures
            post.readable(),
            post.state() == self.state() || post.state() == self.state().removed(index),
    {
        self.lemma_interrupted_flag_update_is_atomic(
            spec_array_update(self.flags.current(), self.state().key(index), STORAGE_INVALID),
            post,
        );
        self.lemma_removed_state(index);
    }

    /// Clearing is atomic. Whenever power is lost while the table is
    /// cleared, a reader finds the table as it was or empty.
    pub proof fn lemma_interrupted_clear_is_atomic(self, post: Self)
        requires
            self.readable(),
            self.state().wf(),
            self.state().capacity() == N,
            self.interrupted_clear(post),
        ensures
            post.readable(),
            post.state() == self.state() || post.state() == self.state().cleared(),
    {
        self.lemma_interrupted_flag_update_is_atomic(
            spec_array_fill_for_copy_type::<u8, N>(STORAGE_INVALID),
            post,
        );
        self.lemma_cleared_state();
    }
}

impl<T: Copy, const N: usize> TableWrite<T, N> {
    /// Returns the four writes that update the flags to `new_flags` where
    /// `current` is the authoritative buffer of the flags.
    pub fn flag_plan(current: Bank, new_flags: &[u8; N]) -> (plan: [TableWrite<T, N>; 4])
        ensures
            plan@ == TableCells::<T, N>::flag_writes_from(current, *new_flags),
    {
        let writes = RawWrite::update_plan(current, new_flags);
        let plan = [
            TableWrite::Flags(writes[0]),
            TableWrite::Flags(writes[1]),
            TableWrite::Flags(writes[2]),
            TableWrite::Flags(writes[3]),
        ];
        assert(plan@ =~= TableCells::<T, N>::flag_writes_from(current, *new_flags));
        plan
    }

    /// Returns the five writes that add `value` to a table whose
    /// authoritative flags are `flags`, in buffer `current`, in the order in
    /// which they are performed. There is no such plan where no slot is free.
    pub fn add_plan(current: Bank, flags: &[u8; N], value: &T) -> (plan: Option<
        [TableWrite<T, N>; 5],
    >)
        ensures
            plan is Some <==> free_below(flags@, N as int) > 0,
            plan matches Some(writes) ==> writes@ == TableCells::<T, N>::add_writes_from(
                current,
                *flags,
                *value,
            ),
    {
        match first_free(flags.as_slice()) {
            Some(key) => {
                let mut new_flags = *flags;
                new_flags[key] = STORAGE_VALID;
                proof {
                    broadcast use vstd::array::group_array_axioms;

                    assert(new_flags =~= spec_array_update(*flags, key as int, STORAGE_VALID));
                }
                let writes = Self::flag_plan(current, &new_flags);
                let plan = [
                    TableWrite::Slot(key, *value),
                    writes[0],
                    writes[1],
                    writes[2],
                    writes[3],
                ];
                assert(plan@ =~= TableCells::<T, N>::add_writes_from(current, *flags, *value));
                Some(plan)
            },
            None => None,
        }
    }

    /// Returns the four writes that remove the item at `index` from a table
    /// whose authoritative flags are `flags`, in buffer `current`. Fails
    /// where `index` is not below the number of items.
    pub fn remove_plan(current: Bank, flags: &[u8; N], index: usize) -> (plan: Result<
        [TableWrite<T, N>; 4],
        (),
    >)
        ensures
            plan is Ok <==> index < live_below(flags@, N as int),
            plan matches Ok(writes) ==> writes@ == TableCells::<T, N>::remove_writes_from(
                current,
                *flags,
                index as int,
            ),
    {
        match slot_of_index(flags.as_slice(), index) {
            Ok(key) => {
                let mut new_flags = *flags;
                new_flags[key] = STORAGE_INVALID;
                proof {
                    broadcast use vstd::array::group_array_axioms;

                    assert(new_flags =~= spec_array_update(*flags, key as int, STORAGE_INVALID));
                }
                Ok(Self::flag_plan(current, &new_flags))
            },
            Err(()) => Err(()),
        }
    }

    /// Returns the four writes that remove all items from a table where
    /// `current` is the authoritative buffer of the flags.
    pub fn clear_plan(current: Bank) -> (plan: [TableWrite<T, N>; 4])
        ensures
            plan@ == TableCells::<T, N>::clear_writes_from(current),
    {
        Self::flag_plan(current, &[STORAGE_INVALID;N])
    }
}

/// A collection of at most `N` items of one size in non-volatile memory.
///
/// Each item lives in a slot of its own. Which slots are allocated is
/// recorded in an array of flags that is updated atomically, so an item is
/// either in the collection or not, whenever power is lost. An item cannot
/// be changed in place.
///
/// The collection keeps a log of the writes that were made to it, which only
/// [`Collection::write_cell`] extends: what an operation adds to the log are
/// the writes that it made, in their order.
pub struct Collection<T, const N: usize> {
    flags: AtomicStorage<[u8; N]>,
    slots: [AlignedStorage<T>; N],
    log: Ghost<Seq<TableWrite<T, N>>>,
}

impl<T, const N: usize> View for Collection<T, N> {
    type V = SlotState<T>;

    /// What a reader finds: the authoritative flags, and the slots.
    open spec fn view(&self) -> SlotState<T> {
        self.cells().state()
    }
}

impl<T, const N: usize> Collection<T, N> {
    /// What the collection holds in flash.
    pub closed spec fn cells(&self) -> TableCells<T, N> {
        TableCells { flags: self.flags@, slots: Seq::new(N as nat, |i: int| self.slots@[i]@) }
    }

    /// The writes that were made to the collection since it was created, in
    /// their order.
    pub closed spec fn log(&self) -> Seq<TableWrite<T, N>> {
        self.log@
    }

    /// Whether the flags can be read. This holds of every collection that
    /// `new` made, unless single writes were made to it since.
    pub open spec fn wf(&self) -> bool {
        self.cells().readable()
    }

    /// A collection has one flag and one value for each of its `N` slots.
    pub proof fn lemma_view(&self)
        ensures
            self@.wf(),
            self@.capacity() == N,
    {
    }
}

impl<T: Copy, const N: usize> Collection<T, N> {
    /// Creates an empty collection, with `value` in every slot. Of the two
    /// buffers of the flags, A is valid and B is not.
    pub fn new(value: T) -> (c: Collection<T, N>)
        ensures
            c.wf(),
            c.cells().flags.a.flag == STORAGE_VALID,
            c.cells().flags.b.flag == STORAGE_INVALID,
            c.cells().flags.a.value == c.cells().flags.b.value,
            c.log() == Seq::<TableWrite<T, N>>::empty(),
            c@.flags == Seq::new(N as nat, |i: int| STORAGE_INVALID),
            c@.slots == Seq::new(N as nat, |i: int| value),
            c@.items() == Seq::<T>::empty(),
            c@.len() == 0,
            c@.remaining() == N,
    {
        let c = Collection {
            flags: AtomicStorage::new(&[STORAGE_INVALID;N]),
            slots: [AlignedStorage::new(value);N],
            log: Ghost(Seq::empty()),
        };
        proof {
            assert(c@.flags =~= Seq::new(N as nat, |i: int| STORAGE_INVALID));
            assert(c@.slots =~= Seq::new(N as nat, |i: int| value));
            crate::slots::lemma_items_of_free_slots(c@.flags, c@.slots, N as int);
        }
        c
    }

    /// Performs the single write `w`, whatever it leaves behind: every
    /// operation that changes the collection is a sequence of them, and a
    /// loss of power is simulated by stopping in between.
    pub fn write_cell(&mut self, w: &TableWrite<T, N>)
        requires
            w matches TableWrite::Slot(key, _) ==> key < N,
        ensures
            final(self).cells() == old(self).cells().wrote(*w),
            final(self).log() == old(self).log().push(*w),
    {
        match w {
            TableWrite::Slot(key, value) => {
                self.slots[*key].update(value);
                proof {
                    assert(self.cells().slots =~= old(self).cells().wrote(*w).slots);
                }
            },
            TableWrite::Flags(write) => self.flags.write_cell(write),
        }
        self.log = Ghost(self.log@.push(*w));
    }

    /// Finds the first free slot, if there is one.
    pub fn find_free_slot(&self) -> (slot: Option<usize>)
        requires
            self.wf(),
        ensures
            slot is Some <==> self@.remaining() > 0,
            slot matches Some(key) ==> self@.is_free_slot(key as int) && key == self@.free_slot(),
    {
        first_free(self.flags.get_ref().as_slice())
    }

    /// Adds an item to the collection: its value is written to the first
    /// free slot, then the flags are updated. Fails where no slot is free,
    /// and then writes nothing.
    pub fn add(&mut self, value: &T) -> (res: Result<(), ()>)
        requires
            old(self).wf(),
        ensures
            final(self).wf(),
            res is Ok <==> old(self)@.remaining() > 0,
            final(self).log() == old(self).log() + old(self).cells().add_writes(*value),
            final(self).cells() == old(self).cells().added(*value),
            final(self)@ == old(self)@.added(*value),
            res is Ok ==> {
                &&& old(self)@.is_free_slot(old(self)@.free_slot())
                &&& final(self)@.len() == old(self)@.len() + 1
                &&& final(self)@.items() == old(self)@.items().insert(
                    old(self)@.free_slot(),
                    *value,
                )
            },
            res is Err ==> *final(self) == *old(self),
    {
        proof {
            old(self).cells().lemma_add_is_its_writes(*value);
            old(self).cells().lemma_added_state(*value);
            old(self)@.lemma_free_slot();
            old(self)@.lemma_added(*value);
        }
        match TableWrite::add_plan(self.flags.which(), self.flags.get_ref(), value) {
            Some(plan) => {
                self.write_cell(&plan[0]);
                self.write_cell(&plan[1]);
                self.write_cell(&plan[2]);
                self.write_cell(&plan[3]);
                self.write_cell(&plan[4]);
                proof {
                    reveal_with_fuel(TableCells::wrote_first, 6);
                    assert(self.log() =~= old(self).log() + old(self).cells().add_writes(*value));
                }
                Ok(())
            },
            None => {
                proof {
                    assert(self.log() =~= old(self).log() + old(self).cells().add_writes(*value));
                }
                Err(())
            },
        }
    }

    /// Tells whether the slot `index` is allocated.
    pub fn is_allocated(&self, index: usize) -> (allocated: bool)
        requires
            self.wf(),
            index < N,
        ensures
            allocated == self@.allocated(index as int),
    {
        crate::safe::is_valid_flag(self.flags.get_ref()[index])
    }

    /// Returns the number of items.
    pub fn len(&self) -> (count: usize)
        requires
            self.wf(),
        ensures
            count == self@.len(),
            count == self@.items().len(),
            count <= N,
    {
        proof {
            lemma_items_count(self@.flags, self@.slots, N as int);
        }
        count_live(self.flags.get_ref().as_slice())
    }

    /// Returns the number of items that the collection can hold.
    pub fn capacity(&self) -> (capacity: usize)
        ensures
            capacity == N,
            capacity == self@.capacity(),
    {
        N
    }

    /// Returns the number of items that can still be added.
    pub fn remaining(&self) -> (room: usize)
        requires
            self.wf(),
        ensures
            room == self@.remaining(),
            room == N - self@.len(),
    {
        proof {
            self@.lemma_len_and_remaining();
        }
        self.capacity() - self.len()
    }

    /// Finds the slot of the item at `index`. Fails where `index` is not
    /// below the number of items.
    pub fn index_to_key(&self, index: usize) -> (res: Result<usize, ()>)
        requires
            self.wf(),
        ensures
            res is Ok <==> index < self@.len(),
            res matches Ok(key) ==> self@.is_key(index as int, key as int) && key
                == self@.key(index as int),
    {
        slot_of_index(self.flags.get_ref().as_slice(), index)
    }

    /// Returns a reference to the item at `index`. Fails where `index` is
    /// not below the number of items.
    pub fn get_ref(&self, index: usize) -> (res: Result<&T, ()>)
        requires
            self.wf(),
        ensures
            res is Ok <==> index < self@.len(),
            res matches Ok(item) ==> *item == self@.get(index as int) && *item
                == self@.items()[index as int],
    {
        match self.index_to_key(index) {
            Ok(key) => {
                proof {
                    lemma_item_of_slot(self@.flags, self@.slots, key as int, N as int);
                }
                Ok(self.slots[key].get_ref())
            },
            Err(()) => Err(()),
        }
    }

    /// Removes the item at `index`, by an update of the flags; the slot
    /// keeps its value. Fails where `index` is not below the number of
    /// items, and then writes nothing.
    pub fn try_remove(&mut self, index: usize) -> (res: Result<(), ()>)
        requires
            old(self).wf(),
        ensures
            final(self).wf(),
            res is Ok <==> index < old(self)@.len(),
            res is Ok ==> {
                &&& final(self).log() == old(self).log() + old(self).cells().remove_writes(
                    index as int,
                )
                &&& final(self).cells() == old(self).cells().removed(index as int)
                &&& final(self)@ == old(self)@.removed(index as int)
                &&& final(self)@.len() == old(self)@.len() - 1
                &&& final(self)@.items() == old(self)@.items().remove(index as int)
            },
            res is Err ==> *final(self) == *old(self),
    {
        match TableWrite::remove_plan(self.flags.which(), self.flags.get_ref(), index) {
            Ok(plan) => {
                proof {
                    old(self).cells().lemma_remove_is_its_writes(index as int);
                    old(self).cells().lemma_removed_state(index as int);
                    old(self)@.lemma_removed(index as int);
                }
                self.write_cell(&plan[0]);
                self.write_cell(&plan[1]);
                self.write_cell(&plan[2]);
                self.write_cell(&plan[3]);
                proof {
                    reveal_with_fuel(TableCells::wrote_first, 5);
                    assert(self.log() =~= old(self).log() + old(self).cells().remove_writes(
                        index as int,
                    ));
                }
                Ok(())
            },
            Err(()) => Err(()),
        }
    }

    /// Removes the item at `index`, which must be below the number of items.
    /// The slot is freed; its value stays where it is.
    pub fn remove(&mut self, index: usize)
        requires
            old(self).wf(),
            index < old(self)@.len(),
        ensures
            final(self).wf(),
            final(self).log() == old(self).log() + old(self).cells().remove_writes(index as int),
            final(self).cells() == old(self).cells().removed(index as int),
            final(self)@ == old(self)@.removed(index as int),
            final(self)@.len() == old(self)@.len() - 1,
            final(self)@.items() == old(self)@.items().remove(index as int),
    {
        match self.try_remove(index) {
            Ok(()) => {},
            Err(()) => vstd::pervasive::unreached(),
        }
    }

    /// Removes all items, in one atomic update of the flags.
    pub fn clear(&mut self)
        requires
            old(self).wf(),
        ensures
            final(self).wf(),
            final(self).log() == old(self).log() + old(self).cells().clear_writes(),
            final(self).cells() == old(self).cells().cleared(),
            final(self)@ == old(self)@.cleared(),
            final(self)@.items() == Seq::<T>::empty(),
            final(self)@.len() == 0,
            final(self)@.remaining() == N,
    {
        proof {
            old(self).cells().lemma_clear_is_its_writes();
            old(self).cells().lemma_cleared_state();
            old(self)@.lemma_cleared();
        }
        let plan = TableWrite::clear_plan(self.flags.which());
        self.write_cell(&plan[0]);
        self.write_cell(&plan[1]);
        self.write_cell(&plan[2]);
        self.write_cell(&plan[3]);
        proof {
            reveal_with_fuel(TableCells::wrote_first, 5);
            assert(self.log() =~= old(self).log() + old(self).cells().clear_writes());
        }
    }
}

impl<T: Copy, const N: usize> Collection<T, N> {
    /// Returns an iterator over the items, in the order of their slots.
    pub fn into_iter(&self) -> (iter: CollectionIterator<'_, T, N>)
        requires
            self.wf(),
        ensures
            iter.wf(),
            iter.container() == *self,
            iter.position() == 0,
            iter.remaining() == self@.items(),
    {
        CollectionIterator { container: self, next: 0 }
    }
}

/// An iterator over the items of a [`Collection`].
pub struct CollectionIterator<'a, T, const N: usize> {
    container: &'a Collection<T, N>,
    next: usize,
}

impl<'a, T, const N: usize> CollectionIterator<'a, T, N> {
    /// The collection that is iterated over.
    pub closed spec fn container(&self) -> Collection<T, N> {
        *self.container
    }

    /// The first slot that was not looked at yet.
    pub closed spec fn position(&self) -> int {
        self.next as int
    }

    /// Whether the iterator stands within its collection, and the collection
    /// can be read.
    pub open spec fn wf(&self) -> bool {
        self.container().wf() && 0 <= self.position() <= N
    }

    /// The items that are still to come: those in the slots from the
    /// iterator's position on.
    pub open spec fn remaining(&self) -> Seq<T> {
        self.container()@.items().skip(live_below(self.container()@.flags, self.position()) as int)
    }
}

impl<'a, T: Copy, const N: usize> CollectionIterator<'a, T, N> {
    /// Returns the next item, or `None` after the last one.
    pub fn next(&mut self) -> (item: Option<&'a T>)
        requires
            old(self).wf(),
        ensures
            final(self).wf(),
            final(self).container() == old(self).container(),
            match item {
                Some(value) => {
                    &&& old(self).remaining().len() > 0
                    &&& *value == old(self).remaining()[0]
                    &&& final(self).remaining() == old(self).remaining().skip(1)
                },
                None => {
                    &&& old(self).remaining().len() == 0
                    &&& final(self).remaining().len() == 0
                },
            },
    {
        let ghost table = self.container@;
        proof {
            self.container.lemma_view();
            lemma_items_count(table.flags, table.slots, N as int);
        }
        loop
            invariant
                self.wf(),
                self.container() == old(self).container(),
                table == self.container()@,
                table.flags.len() == N,
                table.items().len() == table.len(),
                live_below(table.flags, self.position()) == live_below(
                    table.flags,
                    old(self).position(),
                ),
            decreases N - self.next,
        {
            if self.next == N {
                return None;
            }
            if self.container.is_allocated(self.next) {
                proof {
                    lemma_item_of_slot(table.flags, table.slots, self.next as int, N as int);
                }
                let result = Some(self.container.slots[self.next].get_ref());
                self.next += 1;
                proof {
                    assert(self.remaining() =~= old(self).remaining().skip(1));
                }
                return result;
            }
            self.next += 1;
        }
    }
}

} // verus!
