//! Storage of values in non-volatile memory, with updates that survive a
//! loss of power.
//!
//! Four layers, each built on the one below:
//!
//! * [`AlignedStorage`] holds one value in a flash page of its own;
//! * [`SafeStorage`] adds a validity flag that tells a finished write from an
//!   interrupted one;
//! * [`AtomicStorage`] keeps two such buffers and alternates between them, so
//!   that a reader always finds either the old or the new value;
//! * [`Collection`] is a fixed number of slots whose occupancy is recorded in
//!   one atomically updated array of flags.
//!
//! The storages here keep their cells in ordinary memory. Every operation
//! that changes one is a sequence of single writes, which a plan gives in
//! their order ([`CellWrite::update_plan`], [`RawWrite::update_plan`],
//! [`TableWrite::add_plan`]) and which the storage records in a log. What a
//! loss of power can leave behind is described by those writes and by what a
//! write that was cut short may leave in its cell; the laws of atomicity in
//! [`safe`], [`atomic`] and [`collection`] are stated over them. The laws of
//! the items of a collection are in [`slots`].
pub mod aligned;
pub mod atomic;
pub mod collection;
pub mod safe;
pub mod slots;

pub use aligned::AlignedStorage;
pub use aligned::SingleStorage;
pub use atomic::AtomicStorage;
pub use atomic::Bank;
pub use atomic::RawWrite;
pub use collection::Collection;
pub use collection::CollectionIterator;
pub use collection::TableWrite;
pub use safe::is_valid_flag;
pub use safe::CellWrite;
pub use safe::SafeStorage;
pub use safe::STORAGE_INVALID;
pub use safe::STORAGE_VALID;
pub use slots::count_live;
pub use slots::first_free;
pub use slots::slot_of_index;
