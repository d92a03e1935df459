//! A value guarded by a validity flag.
use crate::aligned::AlignedStorage;
use crate::aligned::SingleStorage;
use vstd::prelude::*;

verus! {

/// The flag of a storage whose last write was completed. Every other flag
/// marks a storage whose content must not be used.
pub const STORAGE_VALID: u8 = 0xa5;

/// The flag that an invalidated storage carries.
pub const STORAGE_INVALID: u8 = 0;

/// Tells whether `flag` marks a storage whose last write was completed.
pub fn is_valid_flag(flag: u8) -> (valid: bool)
    ensures
        valid == (flag == STORAGE_VALID),
{
    flag == STORAGE_VALID
}

/// What a [`SafeStorage`] holds in flash: a flag and a value, each in a page
/// of its own.
pub struct Guarded<T> {
    pub flag: u8,
    pub value: T,
}

/// One call of the platform's write primitive on a [`SafeStorage`]: it
/// replaces either the flag or the value.
#[derive(Clone, Copy, Debug)]
pub enum CellWrite<T> {
    Flag(u8),
    Value(T),
}

impl<T: Copy> CellWrite<T> {
    /// Returns the three writes that an update to `value` consists of, in
    /// the order in which they are performed.
    pub fn update_plan(value: &T) -> (plan: [CellWrite<T>; 3])
        ensures
            plan@ == Guarded::update_writes(*value),
    {
        let plan = [
            CellWrite::Flag(STORAGE_INVALID),
            CellWrite::Value(*value),
            CellWrite::Flag(STORAGE_VALID),
        ];
        assert(plan@ =~= Guarded::update_writes(*value));
        plan
    }
}

impl<T> Guarded<T> {
    /// Whether the flag says that the value was written completely.
    pub open spec fn valid(self) -> bool {
        self.flag == STORAGE_VALID
    }

    /// The content after the write `w` was completed.
    pub open spec fn wrote(self, w: CellWrite<T>) -> Self {
        match w {
            CellWrite::Flag(flag) => Guarded { flag: flag, value: self.value },
            CellWrite::Value(value) => Guarded { flag: self.flag, value: value },
        }
    }

    /// Whether `post` may be found after power was lost during the write `w`.
    ///
    /// A flag is a single byte, which the hardware writes at once: it is found
    /// as it was or as it was meant to be. Of a value any mixture of old and
    /// new bytes may be found.
    pub open spec fn torn_by(self, w: CellWrite<T>, post: Self) -> bool {
        match w {
            CellWrite::Flag(_) => post == self || post == self.wrote(w),
            CellWrite::Value(_) => post.flag == self.flag,
        }
    }

    /// The three writes of an update to `value`, in their order: the flag is
    /// cleared, then the value is written, then the flag is set.
    pub open spec fn update_writes(value: T) -> Seq<CellWrite<T>> {
        seq![
            CellWrite::Flag(STORAGE_INVALID),
            CellWrite::Value(value),
            CellWrite::Flag(STORAGE_VALID),
        ]
    }

    /// The content after the first `n` writes of `writes` were completed.
    pub open spec fn wrote_first(self, writes: Seq<CellWrite<T>>, n: int) -> Self
        decreases n,
    {
        if n <= 0 {
            self
        } else {
            self.wrote_first(writes, n - 1).wrote(writes[n - 1])
        }
    }

    /// The content after a completed update to `value`.
    pub open spec fn updated(self, value: T) -> Self {
        Guarded { flag: STORAGE_VALID, value: value }
    }

    /// Whether `post` may be found after power was lost during an update to
    /// `value`: some of its writes were completed and the next one was cut
    /// short.
    pub open spec fn interrupted_update(self, value: T, post: Self) -> bool {
        exists|n: int|
            0 <= n < 3 && #[trigger] self.wrote_first(Self::update_writes(value), n).torn_by(
                Self::update_writes(value)[n],
                post,
            )
    }

    /// A completed update is the sequence of its three writes.
    pub proof fn lemma_update_is_its_writes(self, value: T)
        ensures
            self.updated(value) == self.wrote_first(Self::update_writes(value), 3),
    {
        reveal_with_fuel(Guarded::wrote_first, 4);
    }

    /// An interrupted update is detected. Whenever power is lost during an
    /// update, the storage is found invalid, or untouched, or updated.
    pub proof fn lemma_interrupted_update_is_detected(self, value: T, post: Self)
        requires
            self.interrupted_update(value, post),
        ensures
            post.valid() ==> post == self || post == self.updated(value),
    {
        reveal_with_fuel(Guarded::wrote_first, 4);
    }
}

/// A value in non-volatile memory with a flag that tells whether its last
/// update was completed.
///
/// The storage keeps a log of the writes that were made to it, which only
/// [`SafeStorage::write_cell`] extends: what an operation adds to the log are
/// the writes that it made, in their order.
pub struct SafeStorage<T> {
    flag: AlignedStorage<u8>,
    value: AlignedStorage<T>,
    log: Ghost<Seq<CellWrite<T>>>,
}

impl<T> View for SafeStorage<T> {
    type V = Guarded<T>;

    closed spec fn view(&self) -> Guarded<T> {
        Guarded { flag: self.flag@, value: self.value@ }
    }
}

impl<T> SafeStorage<T> {
    /// The writes that were made to the storage since it was created, in
    /// their order.
    pub closed spec fn log(&self) -> Seq<CellWrite<T>> {
        self.log@
    }

    /// Creates a valid storage that holds `value`.
    pub fn new(value: T) -> (s: SafeStorage<T>)
        ensures
            s@ == (Guarded { flag: STORAGE_VALID, value: value }),
            s.log() == Seq::<CellWrite<T>>::empty(),
    {
        SafeStorage {
            flag: AlignedStorage::new(STORAGE_VALID),
            value: AlignedStorage::new(value),
            log: Ghost(Seq::empty()),
        }
    }

    /// Creates an invalid storage, with `value` in the place of the value
    /// that the first update will write.
    pub fn new_invalid(value: T) -> (s: SafeStorage<T>)
        ensures
            s@ == (Guarded { flag: STORAGE_INVALID, value: value }),
            s.log() == Seq::<CellWrite<T>>::empty(),
    {
        SafeStorage {
            flag: AlignedStorage::new(STORAGE_INVALID),
            value: AlignedStorage::new(value),
            log: Ghost(Seq::empty()),
        }
    }

    /// Whether the last update was completed.
    pub fn is_valid(&self) -> (valid: bool)
        ensures
            valid == self@.valid(),
    {
        is_valid_flag(*self.flag.get_ref())
    }
}

impl<T: Copy> SafeStorage<T> {
    /// Performs the single write `w`, to the flag or to the value.
    pub fn write_cell(&mut self, w: &CellWrite<T>)
        ensures
            final(self)@ == old(self)@.wrote(*w),
            final(self).log() == old(self).log().push(*w),
    {
        match w {
            CellWrite::Flag(flag) => self.flag.update(flag),
            CellWrite::Value(value) => self.value.update(value),
        }
        self.log = Ghost(self.log@.push(*w));
    }

    /// Clears the flag, so that the content counts as invalid: one write.
    pub fn invalidate(&mut self)
        ensures
            final(self)@ == old(self)@.wrote(CellWrite::Flag(STORAGE_INVALID)),
            final(self).log() == old(self).log().push(CellWrite::Flag(STORAGE_INVALID)),
    {
        self.write_cell(&CellWrite::Flag(STORAGE_INVALID));
    }
}

impl<T: Copy> SingleStorage<T> for SafeStorage<T> {
    open spec fn readable(&self) -> bool {
        self@.valid()
    }

    open spec fn updatable(&self) -> bool {
        true
    }

    open spec fn stored(&self) -> T {
        self@.value
    }

    fn get_ref(&self) -> (r: &T) {
        if !self.is_valid() {
            vstd::pervasive::unreached()
        }
        self.value.get_ref()
    }

    /// Makes the three writes of an update, in their order: the flag is
    /// cleared, the value is written, the flag is set.
    fn update(&mut self, value: &T)
        ensures
            final(self)@ == old(self)@.updated(*value),
            final(self).log() == old(self).log() + Guarded::update_writes(*value),
    {
        let plan = CellWrite::update_plan(value);
        self.write_cell(&plan[0]);
        self.write_cell(&plan[1]);
        self.write_cell(&plan[2]);
        proof {
            assert(self.log() =~= old(self).log() + Guarded::update_writes(*value));
        }
    }
}

} // verus!
