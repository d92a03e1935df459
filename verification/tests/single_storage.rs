use nvm::is_valid_flag;
use nvm::AlignedStorage;
use nvm::AtomicStorage;
use nvm::Bank;
use nvm::CellWrite;
use nvm::RawWrite;
use nvm::SafeStorage;
use nvm::SingleStorage;
use nvm::STORAGE_INVALID;
use nvm::STORAGE_VALID;

#[test]
fn valid_flag_is_neither_erased_nor_blank() {
    assert_eq!(STORAGE_VALID, 0xa5);
    assert_eq!(STORAGE_INVALID, 0);
    assert_ne!(STORAGE_VALID, 0xff);
}

#[test]
fn only_the_magic_is_a_valid_flag() {
    for flag in 0..=255u8 {
        assert_eq!(is_valid_flag(flag), flag == 0xa5);
    }
}

#[test]
fn aligned_storage_reads_what_was_written() {
    let mut unit = AlignedStorage::new(17u32);
    assert_eq!(*unit.get_ref(), 17);
    unit.update(&42);
    assert_eq!(*unit.get_ref(), 42);
    unit.update(&42);
    assert_eq!(*unit.get_ref(), 42);
}

#[test]
fn aligned_storage_holds_arrays() {
    let mut unit = AlignedStorage::new([1u8, 2, 3]);
    unit.update(&[4, 5, 6]);
    assert_eq!(*unit.get_ref(), [4, 5, 6]);
}

#[test]
fn safe_storage_starts_valid() {
    let unit = SafeStorage::new(9i16);
    assert!(unit.is_valid());
    assert_eq!(*unit.get_ref(), 9);
}

#[test]
fn safe_storage_can_start_invalid() {
    let mut unit = SafeStorage::new_invalid(9i16);
    assert!(!unit.is_valid());
    unit.update(&4);
    assert!(unit.is_valid());
    assert_eq!(*unit.get_ref(), 4);
}

#[test]
fn safe_storage_update_plan_clears_writes_and_sets() {
    let plan = CellWrite::update_plan(&5u32);
    assert!(matches!(plan[0], CellWrite::Flag(0)));
    assert!(matches!(plan[1], CellWrite::Value(5)));
    assert!(matches!(plan[2], CellWrite::Flag(0xa5)));
}

#[test]
fn safe_storage_update_is_its_plan() {
    let mut by_update = SafeStorage::new(3u32);
    let mut by_plan = SafeStorage::new(3u32);
    by_update.update(&5);
    for w in CellWrite::update_plan(&5u32).iter() {
        by_plan.write_cell(w);
    }
    assert_eq!(by_plan.is_valid(), by_update.is_valid());
    assert_eq!(*by_plan.get_ref(), *by_update.get_ref());
}

#[test]
fn safe_storage_invalidate_clears_the_flag() {
    let mut unit = SafeStorage::new(9i16);
    unit.invalidate();
    assert!(!unit.is_valid());
    unit.invalidate();
    assert!(!unit.is_valid());
}

#[test]
fn safe_storage_update_revalidates() {
    let mut unit = SafeStorage::new(9i16);
    unit.invalidate();
    unit.update(&-4);
    assert!(unit.is_valid());
    assert_eq!(*unit.get_ref(), -4);
}

#[test]
fn safe_storage_only_the_magic_is_valid() {
    for flag in [0u8, 1, 0x5a, 0xa4, 0xa6, 0xff] {
        let mut unit = SafeStorage::new(1u8);
        unit.write_cell(&CellWrite::Flag(flag));
        assert!(!unit.is_valid());
    }
    let mut unit = SafeStorage::new(1u8);
    unit.invalidate();
    unit.write_cell(&CellWrite::Flag(0xa5));
    assert!(unit.is_valid());
}

#[test]
fn safe_storage_write_cell_changes_one_cell() {
    let mut unit = SafeStorage::new(1u8);
    unit.write_cell(&CellWrite::Value(2));
    assert!(unit.is_valid());
    assert_eq!(*unit.get_ref(), 2);
    unit.write_cell(&CellWrite::Flag(STORAGE_INVALID));
    assert!(!unit.is_valid());
    unit.write_cell(&CellWrite::Flag(STORAGE_VALID));
    assert_eq!(*unit.get_ref(), 2);
}

#[test]
fn safe_storage_interrupted_update_is_detected() {
    let writes = CellWrite::update_plan(&5u32);
    for done in 0..=3 {
        let mut unit = SafeStorage::new(3u32);
        for w in writes.iter().take(done) {
            unit.write_cell(w);
        }
        match done {
            0 => {
                assert!(unit.is_valid());
                assert_eq!(*unit.get_ref(), 3);
            }
            1 | 2 => assert!(!unit.is_valid()),
            _ => {
                assert!(unit.is_valid());
                assert_eq!(*unit.get_ref(), 5);
            }
        }
    }
    let mut torn = SafeStorage::new(3u32);
    torn.write_cell(&writes[0]);
    torn.write_cell(&CellWrite::Value(0x0000_0503));
    assert!(!torn.is_valid());
}

#[test]
fn atomic_storage_scenario() {
    let mut counter = AtomicStorage::new(&3i32);
    assert_eq!(*counter.get_ref(), 3);
    counter.update(&5);
    assert_eq!(*counter.get_ref(), 5);
    counter.update(&7);
    assert_eq!(*counter.get_ref(), 7);
}

#[test]
fn atomic_storage_alternates_between_its_buffers() {
    let mut unit = AtomicStorage::new(&0u8);
    assert_eq!(unit.which(), Bank::A);
    unit.update(&1);
    assert_eq!(unit.which(), Bank::B);
    unit.update(&2);
    assert_eq!(unit.which(), Bank::A);
    unit.update(&3);
    assert_eq!(unit.which(), Bank::B);
    assert_eq!(*unit.get_ref(), 3);
}

#[test]
fn atomic_storage_never_regresses() {
    let mut unit = AtomicStorage::new(&0u64);
    for value in 1..100u64 {
        unit.update(&value);
        assert_eq!(*unit.get_ref(), value);
    }
}

#[test]
fn bank_select_prefers_a() {
    assert_eq!(Bank::select(true, true), Some(Bank::A));
    assert_eq!(Bank::select(true, false), Some(Bank::A));
    assert_eq!(Bank::select(false, true), Some(Bank::B));
    assert_eq!(Bank::select(false, false), None);
    assert_eq!(Bank::A.other(), Bank::B);
    assert_eq!(Bank::B.other(), Bank::A);
}

fn is_flag<T>(w: &RawWrite<T>, bank: Bank, flag: u8) -> bool {
    w.bank == bank && matches!(w.write, CellWrite::Flag(f) if f == flag)
}

fn is_value(w: &RawWrite<i32>, bank: Bank, value: i32) -> bool {
    w.bank == bank && matches!(w.write, CellWrite::Value(v) if v == value)
}

#[test]
fn update_plan_writes_the_other_buffer_first() {
    let plan = RawWrite::update_plan(Bank::A, &5i32);
    assert!(is_flag(&plan[0], Bank::B, 0));
    assert!(is_value(&plan[1], Bank::B, 5));
    assert!(is_flag(&plan[2], Bank::B, 0xa5));
    assert!(is_flag(&plan[3], Bank::A, 0));

    let plan = RawWrite::update_plan(Bank::B, &-8i32);
    assert!(is_flag(&plan[0], Bank::A, 0));
    assert!(is_value(&plan[1], Bank::A, -8));
    assert!(is_flag(&plan[2], Bank::A, 0xa5));
    assert!(is_flag(&plan[3], Bank::B, 0));
}

#[test]
fn atomic_storage_update_is_its_plan() {
    let mut by_update = AtomicStorage::new(&3i32);
    let mut by_plan = AtomicStorage::new(&3i32);
    for value in [5, 7, 9] {
        let plan = RawWrite::update_plan(by_plan.which(), &value);
        for w in plan.iter() {
            by_plan.write_cell(w);
        }
        by_update.update(&value);
        assert_eq!(by_plan.which(), by_update.which());
        assert_eq!(*by_plan.get_ref(), *by_update.get_ref());
        assert_eq!(*by_plan.get_ref(), value);
    }
}

fn storage_after_updates(updates: usize) -> AtomicStorage<i32> {
    let mut unit = AtomicStorage::new(&3);
    for i in 0..updates {
        unit.update(&(100 + i as i32));
    }
    unit
}

#[test]
fn atomic_storage_interrupted_between_writes_reads_old_or_new() {
    for updates in 0..4 {
        for done in 0..=4 {
            let mut unit = storage_after_updates(updates);
            let before = *unit.get_ref();
            let plan = RawWrite::update_plan(unit.which(), &55);
            for w in plan.iter().take(done) {
                unit.write_cell(w);
            }
            let found = *unit.get_ref();
            assert!(found == before || found == 55);
            unit.update(&77);
            assert_eq!(*unit.get_ref(), 77);
        }
    }
}

#[test]
fn atomic_storage_torn_value_is_never_read() {
    for updates in 0..4 {
        for debris in [0, -1, 55, 0x0000_0037, 0x3700_0000] {
            let mut unit = storage_after_updates(updates);
            let before = *unit.get_ref();
            let plan = RawWrite::update_plan(unit.which(), &55);
            unit.write_cell(&plan[0]);
            unit.write_cell(&RawWrite { bank: plan[1].bank, write: CellWrite::Value(debris) });
            assert_eq!(*unit.get_ref(), before);
            unit.update(&55);
            assert_eq!(*unit.get_ref(), 55);
        }
    }
}

#[test]
fn atomic_storage_switches_at_the_right_write() {
    // From A the new value is read once A is invalidated, which is the last write.
    let mut unit = storage_after_updates(0);
    let plan = RawWrite::update_plan(unit.which(), &55);
    let mut seen = [0; 5];
    seen[0] = *unit.get_ref();
    for (i, w) in plan.iter().enumerate() {
        unit.write_cell(w);
        seen[i + 1] = *unit.get_ref();
    }
    assert_eq!(seen, [3, 3, 3, 3, 55]);

    // From B the new value is read once A is valid again, which is the third write.
    let mut unit = storage_after_updates(1);
    let plan = RawWrite::update_plan(unit.which(), &55);
    let mut seen = [0; 5];
    seen[0] = *unit.get_ref();
    for (i, w) in plan.iter().enumerate() {
        unit.write_cell(w);
        seen[i + 1] = *unit.get_ref();
    }
    assert_eq!(seen, [100, 100, 100, 55, 55]);
}

#[test]
fn atomic_storage_starts_with_one_valid_buffer() {
    // Were B valid too, it would be read once A is invalidated.
    let mut unit = AtomicStorage::new(&1u8);
    assert_eq!(unit.which(), Bank::A);
    unit.write_cell(&RawWrite { bank: Bank::B, write: CellWrite::Flag(STORAGE_VALID) });
    unit.write_cell(&RawWrite { bank: Bank::A, write: CellWrite::Flag(STORAGE_INVALID) });
    assert_eq!(unit.which(), Bank::B);
    assert_eq!(*unit.get_ref(), 1);
}

#[test]
fn atomic_storage_with_both_buffers_valid_reads_a() {
    let mut unit = AtomicStorage::new(&1u8);
    unit.write_cell(&RawWrite { bank: Bank::A, write: CellWrite::Value(10) });
    unit.write_cell(&RawWrite { bank: Bank::B, write: CellWrite::Value(20) });
    unit.write_cell(&RawWrite { bank: Bank::B, write: CellWrite::Flag(STORAGE_VALID) });
    assert_eq!(unit.which(), Bank::A);
    assert_eq!(*unit.get_ref(), 10);
    unit.update(&30);
    assert_eq!(unit.which(), Bank::B);
    assert_eq!(*unit.get_ref(), 30);
}
