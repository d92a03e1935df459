//! A value in two guarded buffers, updated without a window in which neither
//! can be read.
use crate::aligned::SingleStorage;
use crate::safe::CellWrite;
use crate::safe::Guarded;
use crate::safe::SafeStorage;
use crate::safe::STORAGE_INVALID;
use crate::safe::STORAGE_VALID;
use vstd::prelude::*;

verus! {

/// One of the two buffers of an [`AtomicStorage`].
#[derive(Clone, Copy, Debug, PartialEq, Eq)]
pub enum Bank {
    A,
    B,
}

impl Bank {
    /// The other buffer.
    pub open spec fn spec_other(self) -> Bank {
        match self {
            Bank::A => Bank::B,
            Bank::B => Bank::A,
        }
    }

    /// Returns the other buffer.
    #[verifier::when_used_as_spec(spec_other)]
    pub fn other(self) -> (bank: Bank)
        ensures
            bank == self.spec_other(),
    {
        match self {
            Bank::A => Bank::B,
            Bank::B => Bank::A,
        }
    }

    /// Tells which buffer is authoritative, given whether each of the two is
    /// valid: A where A is valid, else B where B is valid. Where neither is
    /// valid there is none.
    pub fn select(a_valid: bool, b_valid: bool) -> (bank: Option<Bank>)
        ensures
            bank == if a_valid {
                Some(Bank::A)
            } else if b_valid {
                Some(Bank::B)
            } else {
                None
            },
    {
        if a_valid {
            Some(Bank::A)
        } else if b_valid {
            Some(Bank::B)
        } else {
            None
        }
    }
}

/// One call of the platform's write primitive on an [`AtomicStorage`].
#[derive(Clone, Copy, Debug)]
pub struct RawWrite<T> {
    /// The buffer that is written to.
    pub bank: Bank,
    /// What is written there.
    pub write: CellWrite<T>,
}

/// What an [`AtomicStorage`] holds in flash: two guarded buffers.
pub struct Banks<T> {
    pub a: Guarded<T>,
    pub b: Guarded<T>,
}

impl<T> Banks<T> {
    /// Whether at least one buffer is valid.
    pub open spec fn readable(self) -> bool {
        self.a.valid() || self.b.valid()
    }

    /// The buffer that holds the authoritative value: A where A is valid,
    /// else B.
    pub open spec fn which(self) -> Bank {
        if self.a.valid() {
            Bank::A
        } else {
            Bank::B
        }
    }

    /// The content of one buffer.
    pub open spec fn bank(self, bank: Bank) -> Guarded<T> {
        match bank {
            Bank::A => self.a,
            Bank::B => self.b,
        }
    }

    /// The same content with one buffer replaced.
    pub open spec fn with_bank(self, bank: Bank, content: Guarded<T>) -> Self {
        match bank {
            Bank::A => Banks { a: content, b: self.b },
            Bank::B => Banks { a: self.a, b: content },
        }
    }

    /// The authoritative value.
    pub open spec fn current(self) -> T {
        self.bank(self.which()).value
    }

    /// The content after the write `w` was completed.
    pub open spec fn wrote(self, w: RawWrite<T>) -> Self {
        self.with_bank(w.bank, self.bank(w.bank).wrote(w.write))
    }

    /// Whether `post` may be found after power was lost during the write `w`:
    /// the buffer that was written to is torn, the other one is untouched.
    pub open spec fn torn_by(self, w: RawWrite<T>, post: Self) -> bool {
        &&& post.bank(w.bank.other()) == self.bank(w.bank.other())
        &&& self.bank(w.bank).torn_by(w.write, post.bank(w.bank))
    }

    /// The four writes of an update to `value` where `current` is the
    /// authoritative buffer, in their order. The first three update the other
    /// buffer; the last one invalidates `current`.
    pub open spec fn update_writes_from(current: Bank, value: T) -> Seq<RawWrite<T>> {
        seq![
            RawWrite { bank: current.other(), write: CellWrite::Flag(STORAGE_INVALID) },
            RawWrite { bank: current.other(), write: CellWrite::Value(value) },
            RawWrite { bank: current.other(), write: CellWrite::Flag(STORAGE_VALID) },
            RawWrite { bank: current, write: CellWrite::Flag(STORAGE_INVALID) },
        ]
    }

    /// The four writes of an update of this content to `value`.
    pub open spec fn update_writes(self, value: T) -> Seq<RawWrite<T>> {
        Self::update_writes_from(self.which(), value)
    }

    /// The content after the first `n` writes of `writes` were completed.
    pub open spec fn wrote_first(self, writes: Seq<RawWrite<T>>, n: int) -> Self
        decreases n,
    {
        if n <= 0 {
            self
        } else {
            self.wrote_first(writes, n - 1).wrote(writes[n - 1])
        }
    }

    /// The content after a completed update to `value`: the buffer that was
    /// not authoritative is valid and holds `value`, the other one is
    /// invalidated and keeps its value.
    pub open spec fn updated(self, value: T) -> Self {
        let old_bank = self.which();
        self.with_bank(old_bank.other(), Guarded { flag: STORAGE_VALID, value: value }).with_bank(
            old_bank,
            Guarded { flag: STORAGE_INVALID, value: self.bank(old_bank).value },
        )
    }

    /// Whether `post` may be found after power was lost during an update to
    /// `value`: some of its writes were completed and the next one was cut
    /// short. This covers the loss of power before the first write and after
    /// the last one, since a torn flag is found either old or new.
    pub open spec fn interrupted_update(self, value: T, post: Self) -> bool {
        exists|n: int|
            0 <= n < 4 && #[trigger] self.wrote_first(self.update_writes(value), n).torn_by(
                self.update_writes(value)[n],
                post,
            )
    }

    /// A completed update is the sequence of its four writes.
    pub proof fn lemma_update_is_its_writes(self, value: T)
        ensures
            self.updated(value) == self.wrote_first(self.update_writes(value), 4),
    {
        reveal_with_fuel(Banks::wrote_first, 5);
    }

    /// After a completed update the storage holds the new value, in the
    /// buffer that was not authoritative before, and that buffer alone is
    /// valid.
    pub proof fn lemma_update_stores(self, value: T)
        ensures
            self.updated(value).readable(),
            self.updated(value).current() == value,
            self.updated(value).which() == self.which().other(),
            self.updated(value).a.valid() != self.updated(value).b.valid(),
    {
    }

    /// An update is atomic. Whenever power is lost during an update of a
    /// readable storage, the storage is found readable, and it holds either
    /// the value from before the update or the new one.
    pub proof fn lemma_interrupted_update_is_atomic(self, value: T, post: Self)
        requires
            self.readable(),
            self.interrupted_update(value, post),
        ensures
            post.readable(),
            post.current() == self.current() || post.current() == value,
    {
        reveal_with_fuel(Banks::wrote_first, 5);
    }
}

impl<T: Copy> RawWrite<T> {
    /// Returns the four writes that an update to `value` consists of where
    /// `current` is the authoritative buffer, in the order in which they are
    /// performed.
    pub fn update_plan(current: Bank, value: &T) -> (plan: [RawWrite<T>; 4])
        ensures
            plan@ == Banks::update_writes_from(current, *value),
    {
        let fresh = current.other();
        let plan = [
            RawWrite { bank: fresh, write: CellWrite::Flag(STORAGE_INVALID) },
            RawWrite { bank: fresh, write: CellWrite::Value(*value) },
            RawWrite { bank: fresh, write: CellWrite::Flag(STORAGE_VALID) },
            RawWrite { bank: current, write: CellWrite::Flag(STORAGE_INVALID) },
        ];
        assert(plan@ =~= Banks::update_writes_from(current, *value));
        plan
    }
}

/// A value in non-volatile memory whose update is atomic: after a loss of
/// power at any moment the storage holds either the old or the new value.
///
/// The storage keeps a log of the writes that were made to it, which only
/// [`AtomicStorage::write_cell`] extends: what an operation adds to the log
/// are the writes that it made, in their order.
pub struct AtomicStorage<T> {
    storage_a: SafeStorage<T>,
    storage_b: SafeStorage<T>,
    log: Ghost<Seq<RawWrite<T>>>,
}

impl<T> View for AtomicStorage<T> {
    type V = Banks<T>;

    closed spec fn view(&self) -> Banks<T> {
        Banks { a: self.storage_a@, b: self.storage_b@ }
    }
}

impl<T> AtomicStorage<T> {
    /// The writes that were made to the storage since it was created, in
    /// their order.
    pub closed spec fn log(&self) -> Seq<RawWrite<T>> {
        self.log@
    }
}

impl<T: Copy> AtomicStorage<T> {
    /// Creates a storage that holds `value`: buffer A is valid, buffer B is
    /// not.
    pub fn new(value: &T) -> (s: AtomicStorage<T>)
        ensures
            s@.a == (Guarded { flag: STORAGE_VALID, value: *value }),
            s@.b == (Guarded { flag: STORAGE_INVALID, value: *value }),
            s@.a.valid() != s@.b.valid(),
            s@.readable(),
            s@.current() == *value,
            s.log() == Seq::<RawWrite<T>>::empty(),
    {
        AtomicStorage {
            storage_a: SafeStorage::new(*value),
            storage_b: SafeStorage::new_invalid(*value),
            log: Ghost(Seq::empty()),
        }
    }

    /// Tells which buffer holds the authoritative value.
    pub fn which(&self) -> (bank: Bank)
        requires
            self@.readable(),
        ensures
            bank == self@.which(),
    {
        match Bank::select(self.storage_a.is_valid(), self.storage_b.is_valid()) {
            Some(bank) => bank,
            None => vstd::pervasive::unreached(),
        }
    }

    /// Performs the single write `w`, whatever it leaves behind: an update
    /// is four of them, and a loss of power is simulated by stopping in
    /// between.
    pub fn write_cell(&mut self, w: &RawWrite<T>)
        ensures
            final(self)@ == old(self)@.wrote(*w),
            final(self).log() == old(self).log().push(*w),
    {
        match w.bank {
            Bank::A => self.storage_a.write_cell(&w.write),
            Bank::B => self.storage_b.write_cell(&w.write),
        }
        self.log = Ghost(self.log@.push(*w));
    }
}

impl<T: Copy> SingleStorage<T> for AtomicStorage<T> {
    open spec fn readable(&self) -> bool {
        self@.readable()
    }

    open spec fn updatable(&self) -> bool {
        self@.readable()
    }

    open spec fn stored(&self) -> T {
        self@.current()
    }

    fn get_ref(&self) -> (r: &T) {
        match self.which() {
            Bank::A => self.storage_a.get_ref(),
            Bank::B => self.storage_b.get_ref(),
        }
    }

    /// Makes the four writes of an update, in their order: the buffer that
    /// is not authoritative is invalidated, written and validated, and only
    /// then the other one is invalidated.
    fn update(&mut self, value: &T)
        ensures
            final(self)@ == old(self)@.updated(*value),
            final(self).log() == old(self).log() + old(self)@.update_writes(*value),
    {
        let plan = RawWrite::update_plan(self.which(), value);
        self.write_cell(&plan[0]);
        self.write_cell(&plan[1]);
        self.write_cell(&plan[2]);
        self.write_cell(&plan[3]);
        proof {
            assert(self.log() =~= old(self).log() + old(self)@.update_writes(*value));
        }
    }
}

} // verus!
