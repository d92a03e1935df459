//! The content of a table of slots, as its flags and slot values describe it.
//!
//! A slot is allocated where its flag is the valid flag. The items of the
//! table are the values of the allocated slots in the order of the slots, and
//! the index of an item is the number of allocated slots before its own.
use crate::safe::is_valid_flag;
use crate::safe::STORAGE_INVALID;
use crate::safe::STORAGE_VALID;
use vstd::prelude::*;

verus! {

/// The number of allocated slots among the first `upto`.
pub open spec fn live_below(flags: Seq<u8>, upto: int) -> nat
    decreases upto,
{
    if upto <= 0 {
        0
    } else if flags[upto - 1] == STORAGE_VALID {
        live_below(flags, upto - 1) + 1
    } else {
        live_below(flags, upto - 1)
    }
}

/// The number of free slots among the first `upto`.
pub open spec fn free_below(flags: Seq<u8>, upto: int) -> nat
    decreases upto,
{
    if upto <= 0 {
        0
    } else if flags[upto - 1] != STORAGE_VALID {
        free_below(flags, upto - 1) + 1
    } else {
        free_below(flags, upto - 1)
    }
}

/// The values of the allocated slots among the first `upto`, in the order of
/// the slots.
pub open spec fn items_below<T>(flags: Seq<u8>, slots: Seq<T>, upto: int) -> Seq<T>
    decreases upto,
{
    if upto <= 0 {
        Seq::empty()
    } else if flags[upto - 1] == STORAGE_VALID {
        items_below(flags, slots, upto - 1).push(slots[upto - 1])
    } else {
        items_below(flags, slots, upto - 1)
    }
}

/// Every one of the first `upto` slots is allocated or free.
pub proof fn lemma_live_and_free(flags: Seq<u8>, upto: int)
    requires
        0 <= upto <= flags.len(),
    ensures
        live_below(flags, upto) + free_below(flags, upto) == upto,
    decreases upto,
{
    if upto > 0 {
        lemma_live_and_free(flags, upto - 1);
    }
}

/// The count of allocated slots grows with the number of slots looked at.
pub proof fn lemma_live_grows(flags: Seq<u8>, from: int, upto: int)
    requires
        0 <= from <= upto <= flags.len(),
    ensures
        live_below(flags, from) <= live_below(flags, upto),
        from < upto && flags[from] == STORAGE_VALID ==> live_below(flags, from) < live_below(
            flags,
            upto,
        ),
    decreases upto - from,
{
    if from < upto {
        lemma_live_grows(flags, from, upto - 1);
    }
}

/// Where the first `upto` slots are all allocated, their count is `upto`.
pub proof fn lemma_live_prefix(flags: Seq<u8>, upto: int)
    requires
        0 <= upto <= flags.len(),
        forall|j: int| 0 <= j < upto ==> flags[j] == STORAGE_VALID,
    ensures
        live_below(flags, upto) == upto,
    decreases upto,
{
    if upto > 0 {
        lemma_live_prefix(flags, upto - 1);
    }
}

/// Flags that agree on the first `upto` slots count the same there.
pub proof fn lemma_live_agrees(flags: Seq<u8>, other: Seq<u8>, upto: int)
    requires
        0 <= upto <= flags.len(),
        upto <= other.len(),
        forall|j: int| 0 <= j < upto ==> flags[j] == other[j],
    ensures
        live_below(flags, upto) == live_below(other, upto),
        free_below(flags, upto) == free_below(other, upto),
    decreases upto,
{
    if upto > 0 {
        lemma_live_agrees(flags, other, upto - 1);
    }
}

/// Tables that agree on the first `upto` slots hold the same items there.
pub proof fn lemma_items_agree<T>(
    flags: Seq<u8>,
    slots: Seq<T>,
    other_flags: Seq<u8>,
    other_slots: Seq<T>,
    upto: int,
)
    requires
        0 <= upto <= flags.len(),
        upto <= other_flags.len(),
        forall|j: int| 0 <= j < upto ==> flags[j] == other_flags[j],
        forall|j: int|
            0 <= j < upto && flags[j] == STORAGE_VALID ==> slots[j] == other_slots[j],
    ensures
        items_below(flags, slots, upto) == items_below(other_flags, other_slots, upto),
    decreases upto,
{
    if upto > 0 {
        lemma_items_agree(flags, slots, other_flags, other_slots, upto - 1);
    }
}

/// There are as many items as allocated slots.
pub proof fn lemma_items_count<T>(flags: Seq<u8>, slots: Seq<T>, upto: int)
    requires
        0 <= upto <= flags.len(),
    ensures
        items_below(flags, slots, upto).len() == live_below(flags, upto),
    decreases upto,
{
    if upto > 0 {
        lemma_items_count(flags, slots, upto - 1);
    }
}

/// The value of an allocated slot is the item whose index is the number of
/// allocated slots before it.
pub proof fn lemma_item_of_slot<T>(flags: Seq<u8>, slots: Seq<T>, key: int, upto: int)
    requires
        0 <= key < upto <= flags.len(),
        flags[key] == STORAGE_VALID,
    ensures
        live_below(flags, key) < items_below(flags, slots, upto).len(),
        items_below(flags, slots, upto)[live_below(flags, key) as int] == slots[key],
    decreases upto,
{
    lemma_items_count(flags, slots, upto - 1);
    if key < upto - 1 {
        lemma_item_of_slot(flags, slots, key, upto - 1);
    }
}

/// An index below the count of allocated slots belongs to one of them.
pub proof fn lemma_slot_of_index(flags: Seq<u8>, index: int, upto: int) -> (key: int)
    requires
        0 <= upto <= flags.len(),
        0 <= index < live_below(flags, upto),
    ensures
        0 <= key < upto,
        flags[key] == STORAGE_VALID,
        live_below(flags, key) == index,
    decreases upto,
{
    if flags[upto - 1] == STORAGE_VALID && live_below(flags, upto - 1) == index {
        upto - 1
    } else {
        lemma_slot_of_index(flags, index, upto - 1)
    }
}

/// Freeing an allocated slot takes its item out and leaves the others in
/// their order.
pub proof fn lemma_items_after_free<T>(flags: Seq<u8>, slots: Seq<T>, key: int, upto: int)
    requires
        0 <= key < upto <= flags.len(),
        flags[key] == STORAGE_VALID,
    ensures
        live_below(flags.update(key, STORAGE_INVALID), upto) == live_below(flags, upto) - 1,
        items_below(flags.update(key, STORAGE_INVALID), slots, upto) == items_below(
            flags,
            slots,
            upto,
        ).remove(live_below(flags, key) as int),
    decreases upto,
{
    let freed = flags.update(key, STORAGE_INVALID);
    let index = live_below(flags, key) as int;
    lemma_items_count(flags, slots, upto - 1);
    if key == upto - 1 {
        lemma_live_agrees(flags, freed, key);
        lemma_items_agree(flags, slots, freed, slots, key);
        assert(items_below(flags, slots, key).push(slots[key]).remove(index) =~= items_below(
            flags,
            slots,
            key,
        ));
    } else {
        lemma_items_after_free(flags, slots, key, upto - 1);
        lemma_live_grows(flags, key, upto - 1);
        if flags[upto - 1] == STORAGE_VALID {
            assert(items_below(flags, slots, upto - 1).push(slots[upto - 1]).remove(index)
                =~= items_below(flags, slots, upto - 1).remove(index).push(slots[upto - 1]));
        }
    }
}

/// Allocating a free slot puts its value in among the items, at the index
/// that is the number of allocated slots before it.
pub proof fn lemma_items_after_allocate<T>(
    flags: Seq<u8>,
    slots: Seq<T>,
    key: int,
    value: T,
    upto: int,
)
    requires
        0 <= key < upto <= flags.len(),
        flags.len() == slots.len(),
        flags[key] != STORAGE_VALID,
    ensures
        live_below(flags.update(key, STORAGE_VALID), upto) == live_below(flags, upto) + 1,
        free_below(flags.update(key, STORAGE_VALID), upto) == free_below(flags, upto) - 1,
        items_below(flags.update(key, STORAGE_VALID), slots.update(key, value), upto)
            == items_below(flags, slots, upto).insert(live_below(flags, key) as int, value),
    decreases upto,
{
    let taken = flags.update(key, STORAGE_VALID);
    let filled = slots.update(key, value);
    let index = live_below(flags, key) as int;
    lemma_items_count(flags, slots, upto - 1);
    if key == upto - 1 {
        lemma_live_agrees(flags, taken, key);
        lemma_items_agree(flags, slots, taken, filled, key);
        assert(items_below(flags, slots, key).push(value) =~= items_below(
            flags,
            slots,
            key,
        ).insert(index, value));
    } else {
        lemma_items_after_allocate(flags, slots, key, value, upto - 1);
        lemma_live_grows(flags, key, upto - 1);
        if flags[upto - 1] == STORAGE_VALID {
            assert(items_below(flags, slots, upto - 1).push(slots[upto - 1]).insert(index, value)
                =~= items_below(flags, slots, upto - 1).insert(index, value).push(
                slots[upto - 1],
            ));
        }
    }
}

/// Where none of the first `upto` slots is allocated there are no items.
pub proof fn lemma_items_of_free_slots<T>(flags: Seq<u8>, slots: Seq<T>, upto: int)
    requires
        0 <= upto <= flags.len(),
        forall|j: int| 0 <= j < upto ==> flags[j] != STORAGE_VALID,
    ensures
        live_below(flags, upto) == 0,
        free_below(flags, upto) == upto,
        items_below(flags, slots, upto) == Seq::<T>::empty(),
    decreases upto,
{
    if upto > 0 {
        lemma_items_of_free_slots(flags, slots, upto - 1);
    }
}

/// The count of free slots grows with the number of slots looked at.
pub proof fn lemma_free_grows(flags: Seq<u8>, from: int, upto: int)
    requires
        0 <= from <= upto <= flags.len(),
    ensures
        free_below(flags, from) <= free_below(flags, upto),
        from < upto && flags[from] != STORAGE_VALID ==> free_below(flags, from) < free_below(
            flags,
            upto,
        ),
    decreases upto - from,
{
    if from < upto {
        lemma_free_grows(flags, from, upto - 1);
    }
}

/// Where one of the first `upto` slots is free, one of them is the first
/// free slot.
pub proof fn lemma_first_free(flags: Seq<u8>, upto: int) -> (key: int)
    requires
        0 <= upto <= flags.len(),
        free_below(flags, upto) > 0,
    ensures
        0 <= key < upto,
        flags[key] != STORAGE_VALID,
        forall|j: int| 0 <= j < key ==> flags[j] == STORAGE_VALID,
    decreases upto,
{
    if free_below(flags, upto - 1) > 0 {
        lemma_first_free(flags, upto - 1)
    } else {
        assert forall|j: int| 0 <= j < upto - 1 implies flags[j] == STORAGE_VALID by {
            lemma_free_grows(flags, j, upto - 1);
        }
        upto - 1
    }
}

/// Whether `key` is the first slot that is free.
pub open spec fn is_first_free(flags: Seq<u8>, key: int) -> bool {
    &&& 0 <= key < flags.len()
    &&& flags[key] != STORAGE_VALID
    &&& forall|j: int| 0 <= j < key ==> flags[j] == STORAGE_VALID
}

/// The first slot that is free, where there is one.
pub open spec fn first_free_slot(flags: Seq<u8>) -> int {
    choose|key: int| is_first_free(flags, key)
}

/// Whether `key` is the slot of the item at `index`: an allocated slot with
/// `index` allocated slots before it.
pub open spec fn is_slot_of(flags: Seq<u8>, index: int, key: int) -> bool {
    &&& 0 <= key < flags.len()
    &&& flags[key] == STORAGE_VALID
    &&& live_below(flags, key) == index
}

/// The slot of the item at `index`, where there is such an item.
pub open spec fn slot_of(flags: Seq<u8>, index: int) -> int {
    choose|key: int| is_slot_of(flags, index, key)
}

/// There is a first free slot exactly where a slot is free, and then it is
/// the only one; all slots before it are allocated.
pub proof fn lemma_first_free_slot(flags: Seq<u8>)
    ensures
        free_below(flags, flags.len() as int) > 0 <==> is_first_free(flags, first_free_slot(flags)),
        forall|key: int| is_first_free(flags, key) ==> key == first_free_slot(flags),
        free_below(flags, flags.len() as int) > 0 ==> live_below(flags, first_free_slot(flags))
            == first_free_slot(flags),
{
    let n = flags.len() as int;
    if free_below(flags, n) > 0 {
        let key = lemma_first_free(flags, n);
        assert(is_first_free(flags, key));
    }
    if is_first_free(flags, first_free_slot(flags)) {
        lemma_free_grows(flags, first_free_slot(flags), n);
        lemma_live_prefix(flags, first_free_slot(flags));
    }
}

/// An index has a slot exactly where it is below the number of allocated
/// slots, and then it has only one.
pub proof fn lemma_slot_of(flags: Seq<u8>, index: int)
    ensures
        0 <= index < live_below(flags, flags.len() as int) <==> is_slot_of(
            flags,
            index,
            slot_of(flags, index),
        ),
        forall|key: int| is_slot_of(flags, index, key) ==> key == slot_of(flags, index),
{
    let n = flags.len() as int;
    if 0 <= index < live_below(flags, n) {
        let key = lemma_slot_of_index(flags, index, n);
        assert(is_slot_of(flags, index, key));
    }
    if is_slot_of(flags, index, slot_of(flags, index)) {
        lemma_live_grows(flags, slot_of(flags, index), n);
    }
    assert forall|key: int| is_slot_of(flags, index, key) implies key == slot_of(flags, index) by {
        let other = slot_of(flags, index);
        if key < other {
            lemma_live_grows(flags, key, other);
        } else if other < key {
            lemma_live_grows(flags, other, key);
        }
    }
}

/// Finds the first free slot of a table with these flags, if there is one.
pub fn first_free(flags: &[u8]) -> (slot: Option<usize>)
    ensures
        slot is Some <==> free_below(flags@, flags@.len() as int) > 0,
        slot matches Some(key) ==> is_first_free(flags@, key as int) && key == first_free_slot(
            flags@,
        ),
{
    let mut i: usize = 0;
    while i < flags.len()
        invariant
            i <= flags@.len(),
            forall|j: int| 0 <= j < i ==> flags@[j] == STORAGE_VALID,
        decreases flags@.len() - i,
    {
        if !is_valid_flag(flags[i]) {
            proof {
                assert(is_first_free(flags@, i as int));
                lemma_first_free_slot(flags@);
            }
            return Some(i);
        }
        i += 1;
    }
    proof {
        lemma_first_free_slot(flags@);
    }
    None
}

/// Counts the allocated slots of a table with these flags.
pub fn count_live(flags: &[u8]) -> (count: usize)
    ensures
        count == live_below(flags@, flags@.len() as int),
        count <= flags@.len(),
{
    let mut result: usize = 0;
    let mut i: usize = 0;
    while i < flags.len()
        invariant
            i <= flags@.len(),
            result == live_below(flags@, i as int),
            result <= i,
        decreases flags@.len() - i,
    {
        if is_valid_flag(flags[i]) {
            result += 1;
        }
        i += 1;
    }
    result
}

/// Finds the slot of the item at `index` in a table with these flags. Fails
/// where `index` is not below the number of allocated slots.
pub fn slot_of_index(flags: &[u8], index: usize) -> (res: Result<usize, ()>)
    ensures
        res is Ok <==> index < live_below(flags@, flags@.len() as int),
        res matches Ok(key) ==> is_slot_of(flags@, index as int, key as int) && key == slot_of(
            flags@,
            index as int,
        ),
{
    let mut next: usize = 0;
    let mut count: usize = 0;
    loop
        invariant
            next <= flags@.len(),
            count == live_below(flags@, next as int),
            count <= index,
        decreases flags@.len() - next,
    {
        if next == flags.len() {
            return Err(());
        }
        if is_valid_flag(flags[next]) {
            if count == index {
                proof {
                    lemma_slot_of(flags@, index as int);
                    assert(is_slot_of(flags@, index as int, next as int));
                }
                return Ok(next);
            }
            count += 1
        }
        next += 1
    }
}

/// What a table of slots holds: the flag and the value of each slot.
pub struct SlotState<T> {
    /// The flag of each slot; a slot is allocated where it is the valid flag.
    pub flags: Seq<u8>,
    /// The value in each slot, allocated or not.
    pub slots: Seq<T>,
}

impl<T> SlotState<T> {
    /// Whether there is one flag for each slot.
    pub open spec fn wf(self) -> bool {
        self.flags.len() == self.slots.len()
    }

    /// The number of slots.
    pub open spec fn capacity(self) -> nat {
        self.flags.len()
    }

    /// Whether `key` is a slot that is allocated.
    pub open spec fn allocated(self, key: int) -> bool {
        0 <= key < self.flags.len() && self.flags[key] == STORAGE_VALID
    }

    /// The number of items: that of the allocated slots.
    pub open spec fn len(self) -> nat {
        live_below(self.flags, self.flags.len() as int)
    }

    /// The number of items that can still be added: that of the free slots.
    pub open spec fn remaining(self) -> nat {
        free_below(self.flags, self.flags.len() as int)
    }

    /// Whether `key` is the first slot that is free.
    pub open spec fn is_free_slot(self, key: int) -> bool {
        is_first_free(self.flags, key)
    }

    /// The first slot that is free, where there is one.
    pub open spec fn free_slot(self) -> int {
        first_free_slot(self.flags)
    }

    /// Whether `key` is the slot of the item at `index`: an allocated slot
    /// with `index` allocated slots before it.
    pub open spec fn is_key(self, index: int, key: int) -> bool {
        is_slot_of(self.flags, index, key)
    }

    /// The slot of the item at `index`, where there is such an item.
    pub open spec fn key(self, index: int) -> int {
        slot_of(self.flags, index)
    }

    /// The item at `index`.
    pub open spec fn get(self, index: int) -> T {
        self.slots[self.key(index)]
    }

    /// The items, in the order of their slots.
    pub open spec fn items(self) -> Seq<T> {
        items_below(self.flags, self.slots, self.flags.len() as int)
    }

    /// The table after `value` was added: it is written to the first free
    /// slot, which is then allocated. A table without a free slot stays as it
    /// is.
    pub open spec fn added(self, value: T) -> Self {
        if self.remaining() > 0 {
            SlotState {
                flags: self.flags.update(self.free_slot(), STORAGE_VALID),
                slots: self.slots.update(self.free_slot(), value),
            }
        } else {
            self
        }
    }

    /// The table after each of `values` was added in turn.
    pub open spec fn added_all(self, values: Seq<T>) -> Self
        decreases values.len(),
    {
        if values.len() == 0 {
            self
        } else {
            self.added_all(values.drop_last()).added(values.last())
        }
    }

    /// The table after the item at `index` was removed: its slot is freed and
    /// keeps its value.
    pub open spec fn removed(self, index: int) -> Self {
        SlotState { flags: self.flags.update(self.key(index), STORAGE_INVALID), slots: self.slots }
    }

    /// The table after all items were removed: every slot is free and keeps
    /// its value.
    pub open spec fn cleared(self) -> Self {
        SlotState {
            flags: Seq::new(self.flags.len(), |i: int| STORAGE_INVALID),
            slots: self.slots,
        }
    }

    /// The items and the room that is left make up the capacity.
    pub proof fn lemma_len_and_remaining(self)
        ensures
            self.len() + self.remaining() == self.capacity(),
    {
        lemma_live_and_free(self.flags, self.flags.len() as int);
    }

    /// There is a first free slot exactly where room is left, and then it is
    /// the only one.
    pub proof fn lemma_free_slot(self)
        ensures
            self.remaining() > 0 <==> self.is_free_slot(self.free_slot()),
            forall|key: int| self.is_free_slot(key) ==> key == self.free_slot(),
            self.remaining() > 0 ==> live_below(self.flags, self.free_slot()) == self.free_slot(),
    {
        lemma_first_free_slot(self.flags);
    }

    /// An index has a slot exactly where it is below the number of items, and
    /// then it has only one.
    pub proof fn lemma_key(self, index: int)
        ensures
            0 <= index < self.len() <==> self.is_key(index, self.key(index)),
            forall|key: int| self.is_key(index, key) ==> key == self.key(index),
    {
        lemma_slot_of(self.flags, index);
    }

    /// The items are, in their order, what `get` finds at the indices below
    /// the number of items.
    pub proof fn lemma_items_are_gets(self)
        ensures
            self.items().len() == self.len(),
            forall|index: int| 0 <= index < self.len() ==> self.items()[index] == self.get(index),
    {
        let n = self.flags.len() as int;
        lemma_items_count(self.flags, self.slots, n);
        assert forall|index: int| 0 <= index < self.len() implies self.items()[index] == self.get(
            index,
        ) by {
            self.lemma_key(index);
            lemma_item_of_slot(self.flags, self.slots, self.key(index), n);
        }
    }

    /// Where room is left, adding a value takes the first free slot: there is
    /// one item more and one free slot less, and the value stands among the
    /// items at the index that is the number of its slot. Where no room is
    /// left, nothing changes.
    pub proof fn lemma_added(self, value: T)
        requires
            self.wf(),
        ensures
            self.added(value).wf(),
            self.added(value).capacity() == self.capacity(),
            self.remaining() == 0 ==> self.added(value) == self,
            self.remaining() > 0 ==> {
                &&& self.added(value).len() == self.len() + 1
                &&& self.added(value).remaining() == self.remaining() - 1
                &&& self.added(value).allocated(self.free_slot())
                &&& self.added(value).items() == self.items().insert(self.free_slot(), value)
            },
    {
        if self.remaining() > 0 {
            self.lemma_free_slot();
            lemma_items_after_allocate(
                self.flags,
                self.slots,
                self.free_slot(),
                value,
                self.flags.len() as int,
            );
        }
    }

    /// As long as every addition finds room, the number of items grows by the
    /// number of values added.
    pub proof fn lemma_added_all(self, values: Seq<T>)
        requires
            self.wf(),
            forall|done: int|
                0 <= done < values.len() ==> #[trigger] self.added_all(
                    values.take(done),
                ).remaining() > 0,
        ensures
            self.added_all(values).wf(),
            self.added_all(values).capacity() == self.capacity(),
            self.added_all(values).len() == self.len() + values.len(),
        decreases values.len(),
    {
        if values.len() > 0 {
            let before = values.drop_last();
            assert forall|done: int| 0 <= done < before.len() implies #[trigger] self.added_all(
                before.take(done),
            ).remaining() > 0 by {
                assert(before.take(done) == values.take(done));
            }
            self.lemma_added_all(before);
            assert(values.take(before.len() as int) == before);
            self.added_all(before).lemma_added(values.last());
        }
    }

    /// After as many additions as the table has slots, each of which found
    /// room, no room is left: a further addition changes nothing.
    pub proof fn lemma_full_after_capacity_adds(self, values: Seq<T>, extra: T)
        requires
            self.wf(),
            values.len() == self.capacity(),
            forall|done: int|
                0 <= done < values.len() ==> #[trigger] self.added_all(
                    values.take(done),
                ).remaining() > 0,
        ensures
            self.added_all(values).remaining() == 0,
            self.added_all(values).len() == self.capacity(),
            self.added_all(values).added(extra) == self.added_all(values),
    {
        self.lemma_added_all(values);
        self.added_all(values).lemma_len_and_remaining();
    }

    /// Removing the item at `index` leaves the other items in their order:
    /// those before it keep their index, those after it move down by one.
    pub proof fn lemma_removed(self, index: int)
        requires
            self.wf(),
            0 <= index < self.len(),
        ensures
            self.removed(index).wf(),
            self.removed(index).capacity() == self.capacity(),
            self.removed(index).len() == self.len() - 1,
            self.removed(index).remaining() == self.remaining() + 1,
            self.removed(index).items() == self.items().remove(index),
            forall|i: int| 0 <= i < index ==> self.removed(index).get(i) == self.get(i),
            forall|i: int|
                index <= i < self.len() - 1 ==> self.removed(index).get(i) == self.get(i + 1),
    {
        let after = self.removed(index);
        self.lemma_key(index);
        lemma_items_after_free(self.flags, self.slots, self.key(index), self.flags.len() as int);
        self.lemma_len_and_remaining();
        after.lemma_len_and_remaining();
        self.lemma_items_are_gets();
        after.lemma_items_are_gets();
    }

    /// A cleared table holds no item, and all its slots are free.
    pub proof fn lemma_cleared(self)
        requires
            self.wf(),
        ensures
            self.cleared().wf(),
            self.cleared().capacity() == self.capacity(),
            self.cleared().len() == 0,
            self.cleared().remaining() == self.capacity(),
            self.cleared().items() == Seq::<T>::empty(),
    {
        let empty = self.cleared();
        lemma_items_of_free_slots(empty.flags, empty.slots, empty.flags.len() as int);
    }

    /// The first value that is added to a cleared table goes to slot 0, and
    /// is then the only item. The table must have a slot at all.
    pub proof fn lemma_added_after_clear(self, value: T)
        requires
            self.wf(),
            self.capacity() > 0,
        ensures
            self.cleared().remaining() > 0,
            self.cleared().free_slot() == 0,
            self.cleared().added(value).allocated(0),
            self.cleared().added(value).len() == 1,
            self.cleared().added(value).items() == seq![value],
    {
        let empty = self.cleared();
        self.lemma_cleared();
        assert(empty.is_free_slot(0));
        empty.lemma_free_slot();
        empty.lemma_added(value);
        assert(Seq::<T>::empty().insert(0, value) =~= seq![value]);
    }
}

} // verus!
