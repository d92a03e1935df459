use nvm::count_live;
use nvm::first_free;
use nvm::slot_of_index;
use nvm::Bank;
use nvm::CellWrite;
use nvm::Collection;
use nvm::RawWrite;
use nvm::TableWrite;

fn items<const N: usize>(table: &Collection<u8, N>) -> Vec<u8> {
    let mut found = Vec::new();
    let mut iter = table.into_iter();
    while let Some(item) = iter.next() {
        found.push(*item);
    }
    found
}

fn gets<const N: usize>(table: &Collection<u8, N>) -> Vec<u8> {
    (0..table.len()).map(|i| *table.get_ref(i).unwrap()).collect()
}

#[test]
fn new_collection_is_empty() {
    let table = Collection::<u8, 4>::new(0);
    assert_eq!(table.len(), 0);
    assert_eq!(table.capacity(), 4);
    assert_eq!(table.remaining(), 4);
    assert_eq!(table.get_ref(0), Err(()));
    assert_eq!(table.index_to_key(0), Err(()));
    assert_eq!(table.find_free_slot(), Some(0));
    for slot in 0..4 {
        assert!(!table.is_allocated(slot));
    }
    assert_eq!(items(&table), Vec::<u8>::new());
}

#[test]
fn collection_scenario() {
    let mut table = Collection::<u8, 4>::new(0);
    assert_eq!(table.add(&1), Ok(()));
    assert_eq!(table.add(&2), Ok(()));
    assert_eq!(table.add(&3), Ok(()));
    assert_eq!(table.len(), 3);
    assert_eq!(table.get_ref(0), Ok(&1));
    assert_eq!(table.get_ref(1), Ok(&2));
    assert_eq!(table.get_ref(2), Ok(&3));
    table.remove(0);
    assert_eq!(table.len(), 2);
    assert_eq!(table.get_ref(0), Ok(&2));
    assert_eq!(table.get_ref(1), Ok(&3));
}

#[test]
fn add_to_a_full_collection_fails_and_changes_nothing() {
    let mut table = Collection::<u8, 3>::new(0);
    for value in [10, 20, 30] {
        assert_eq!(table.add(&value), Ok(()));
    }
    assert_eq!(table.remaining(), 0);
    assert_eq!(table.find_free_slot(), None);
    assert_eq!(table.add(&40), Err(()));
    assert_eq!(table.len(), 3);
    assert_eq!(table.remaining(), 0);
    assert_eq!(gets(&table), vec![10, 20, 30]);
    assert_eq!(items(&table), vec![10, 20, 30]);
}

#[test]
fn add_succeeds_exactly_while_room_is_left() {
    let mut table = Collection::<u8, 5>::new(0);
    for value in 0..8u8 {
        let room = table.remaining();
        let res = table.add(&value);
        assert_eq!(res.is_ok(), room > 0);
    }
    assert_eq!(table.len(), 5);
    assert_eq!(gets(&table), vec![0, 1, 2, 3, 4]);
}

#[test]
fn len_and_remaining_make_up_the_capacity() {
    let mut table = Collection::<u8, 4>::new(0);
    assert_eq!(table.len() + table.remaining(), 4);
    for value in 0..6u8 {
        let _ = table.add(&value);
        assert_eq!(table.len() + table.remaining(), 4);
    }
    table.remove(1);
    assert_eq!(table.len() + table.remaining(), 4);
    table.remove(0);
    assert_eq!(table.len() + table.remaining(), 4);
    let _ = table.add(&9);
    assert_eq!(table.len() + table.remaining(), 4);
    table.clear();
    assert_eq!(table.len() + table.remaining(), 4);
    assert_eq!(table.remaining(), 4);
}

#[test]
fn remove_shifts_later_items_down() {
    let mut table = Collection::<u8, 5>::new(0);
    for value in [10, 20, 30, 40, 50] {
        assert_eq!(table.add(&value), Ok(()));
    }
    table.remove(1);
    assert_eq!(table.get_ref(0), Ok(&10));
    assert_eq!(table.get_ref(1), Ok(&30));
    assert_eq!(table.get_ref(2), Ok(&40));
    assert_eq!(table.get_ref(3), Ok(&50));
    assert_eq!(table.get_ref(4), Err(()));
    table.remove(3);
    assert_eq!(gets(&table), vec![10, 30, 40]);
    table.remove(0);
    assert_eq!(gets(&table), vec![30, 40]);
}

#[test]
fn index_beyond_the_items_is_refused() {
    let mut table = Collection::<u8, 4>::new(0);
    assert_eq!(table.add(&1), Ok(()));
    assert_eq!(table.add(&2), Ok(()));
    assert_eq!(table.index_to_key(2), Err(()));
    assert_eq!(table.get_ref(2), Err(()));
    assert_eq!(table.get_ref(usize::MAX), Err(()));
    table.remove(1);
    assert_eq!(table.index_to_key(1), Err(()));
    assert_eq!(table.get_ref(1), Err(()));
    assert_eq!(table.get_ref(0), Ok(&1));
}

#[test]
fn index_to_key_skips_free_slots() {
    let mut table = Collection::<u8, 5>::new(0);
    for value in [10, 20, 30, 40] {
        assert_eq!(table.add(&value), Ok(()));
    }
    table.remove(0);
    table.remove(1);
    // Slots 1 and 3 are left.
    assert_eq!(table.index_to_key(0), Ok(1));
    assert_eq!(table.index_to_key(1), Ok(3));
    assert_eq!(table.index_to_key(2), Err(()));
    assert!(!table.is_allocated(0));
    assert!(table.is_allocated(1));
    assert!(!table.is_allocated(2));
    assert!(table.is_allocated(3));
    assert!(!table.is_allocated(4));
    assert_eq!(gets(&table), vec![20, 40]);
}

#[test]
fn add_takes_the_first_free_slot() {
    let mut table = Collection::<u8, 4>::new(0);
    for value in [10, 20, 30] {
        assert_eq!(table.add(&value), Ok(()));
    }
    table.remove(1);
    assert_eq!(table.find_free_slot(), Some(1));
    assert_eq!(table.add(&99), Ok(()));
    assert!(table.is_allocated(1));
    assert_eq!(table.index_to_key(1), Ok(1));
    assert_eq!(gets(&table), vec![10, 99, 30]);
    assert_eq!(table.find_free_slot(), Some(3));
    table.remove(0);
    assert_eq!(table.add(&7), Ok(()));
    assert_eq!(gets(&table), vec![7, 99, 30]);
}

#[test]
fn clear_empties_and_the_next_add_takes_slot_0() {
    let mut table = Collection::<u8, 3>::new(0);
    for value in [10, 20, 30] {
        assert_eq!(table.add(&value), Ok(()));
    }
    table.clear();
    assert_eq!(table.len(), 0);
    assert_eq!(table.remaining(), 3);
    assert_eq!(table.get_ref(0), Err(()));
    assert_eq!(items(&table), Vec::<u8>::new());
    assert_eq!(table.add(&5), Ok(()));
    assert!(table.is_allocated(0));
    assert!(!table.is_allocated(1));
    assert_eq!(table.index_to_key(0), Ok(0));
    assert_eq!(table.get_ref(0), Ok(&5));
    assert_eq!(table.len(), 1);
}

#[test]
fn clear_of_an_empty_collection() {
    let mut table = Collection::<u8, 2>::new(0);
    table.clear();
    assert_eq!(table.len(), 0);
    assert_eq!(table.add(&1), Ok(()));
    assert_eq!(gets(&table), vec![1]);
}

#[test]
fn iteration_yields_the_items_in_order() {
    let mut table = Collection::<u8, 6>::new(0);
    for value in [1, 2, 3, 4, 5] {
        assert_eq!(table.add(&value), Ok(()));
    }
    table.remove(3);
    table.remove(0);
    assert_eq!(items(&table), vec![2, 3, 5]);
    assert_eq!(items(&table).len(), table.len());
    assert_eq!(items(&table), gets(&table));
    // A new iterator starts over.
    assert_eq!(items(&table), vec![2, 3, 5]);
}

#[test]
fn iterator_stays_at_its_end() {
    let mut table = Collection::<u8, 2>::new(0);
    assert_eq!(table.add(&8), Ok(()));
    let mut iter = table.into_iter();
    assert_eq!(iter.next(), Some(&8));
    assert_eq!(iter.next(), None);
    assert_eq!(iter.next(), None);
}

#[test]
fn collection_without_slots() {
    let mut table = Collection::<u8, 0>::new(0);
    assert_eq!(table.capacity(), 0);
    assert_eq!(table.len(), 0);
    assert_eq!(table.remaining(), 0);
    assert_eq!(table.find_free_slot(), None);
    assert_eq!(table.add(&1), Err(()));
    table.clear();
    assert_eq!(table.add(&1), Err(()));
    assert_eq!(table.get_ref(0), Err(()));
    assert_eq!(items(&table), Vec::<u8>::new());
}

#[test]
fn collection_of_records() {
    let mut table = Collection::<(u32, [u8; 4]), 2>::new((0, [0; 4]));
    assert_eq!(table.add(&(7, *b"abcd")), Ok(()));
    assert_eq!(table.add(&(9, *b"wxyz")), Ok(()));
    assert_eq!(table.add(&(1, *b"full")), Err(()));
    assert_eq!(table.get_ref(1), Ok(&(9, *b"wxyz")));
    table.remove(0);
    assert_eq!(table.get_ref(0), Ok(&(9, *b"wxyz")));
}

#[test]
fn try_remove_refuses_an_index_beyond_the_items() {
    let mut table = Collection::<u8, 4>::new(0);
    for value in [10, 20, 30] {
        assert_eq!(table.add(&value), Ok(()));
    }
    assert_eq!(table.try_remove(3), Err(()));
    assert_eq!(table.try_remove(usize::MAX), Err(()));
    assert_eq!(table.len(), 3);
    assert_eq!(gets(&table), vec![10, 20, 30]);
    assert_eq!(table.try_remove(2), Ok(()));
    // The index that was just removed is no longer one.
    assert_eq!(table.try_remove(2), Err(()));
    assert_eq!(table.len(), 2);
    assert_eq!(gets(&table), vec![10, 20]);
    for slot in 0..4 {
        assert_eq!(table.is_allocated(slot), slot < 2);
    }
    assert_eq!(table.try_remove(0), Ok(()));
    assert_eq!(gets(&table), vec![20]);
}

#[test]
fn try_remove_of_an_empty_collection() {
    let mut table = Collection::<u8, 2>::new(0);
    assert_eq!(table.try_remove(0), Err(()));
    assert_eq!(table.len(), 0);
    assert_eq!(table.add(&1), Ok(()));
    assert_eq!(gets(&table), vec![1]);
}

#[test]
fn flags_are_scanned_in_order() {
    let flags = [0xa5u8, 0, 0xa5, 0xa5, 0xff, 0xa5];
    assert_eq!(first_free(&flags), Some(1));
    assert_eq!(count_live(&flags), 4);
    assert_eq!(slot_of_index(&flags, 0), Ok(0));
    assert_eq!(slot_of_index(&flags, 1), Ok(2));
    assert_eq!(slot_of_index(&flags, 2), Ok(3));
    assert_eq!(slot_of_index(&flags, 3), Ok(5));
    assert_eq!(slot_of_index(&flags, 4), Err(()));

    assert_eq!(first_free(&[0xa5u8, 0xa5]), None);
    assert_eq!(first_free(&[]), None);
    assert_eq!(count_live(&[]), 0);
    assert_eq!(slot_of_index(&[], 0), Err(()));
    assert_eq!(first_free(&[1u8, 0xa5]), Some(0));
}

fn flag_write<const N: usize>(w: &TableWrite<u8, N>) -> (Bank, CellWrite<[u8; N]>) {
    match w {
        TableWrite::Flags(RawWrite { bank, write }) => (*bank, *write),
        TableWrite::Slot(..) => panic!("a write to a slot"),
    }
}

#[test]
fn add_plan_writes_the_slot_before_the_flags() {
    let plan = TableWrite::add_plan(Bank::A, &[0xa5u8, 0, 0], &7u8).unwrap();
    assert!(matches!(plan[0], TableWrite::Slot(1, 7)));
    assert!(matches!(flag_write(&plan[1]), (Bank::B, CellWrite::Flag(0))));
    assert!(matches!(flag_write(&plan[2]), (Bank::B, CellWrite::Value([0xa5, 0xa5, 0]))));
    assert!(matches!(flag_write(&plan[3]), (Bank::B, CellWrite::Flag(0xa5))));
    assert!(matches!(flag_write(&plan[4]), (Bank::A, CellWrite::Flag(0))));

    assert!(TableWrite::add_plan(Bank::A, &[0xa5u8, 0xa5], &7u8).is_none());
    assert!(TableWrite::<u8, 0>::add_plan(Bank::B, &[], &7u8).is_none());
}

#[test]
fn remove_plan_frees_the_slot_of_the_index() {
    let plan = TableWrite::<u8, 4>::remove_plan(Bank::B, &[0, 0xa5, 0, 0xa5], 1).unwrap();
    assert!(matches!(flag_write(&plan[0]), (Bank::A, CellWrite::Flag(0))));
    assert!(matches!(flag_write(&plan[1]), (Bank::A, CellWrite::Value([0, 0xa5, 0, 0]))));
    assert!(matches!(flag_write(&plan[2]), (Bank::A, CellWrite::Flag(0xa5))));
    assert!(matches!(flag_write(&plan[3]), (Bank::B, CellWrite::Flag(0))));

    assert!(TableWrite::<u8, 4>::remove_plan(Bank::B, &[0, 0xa5, 0, 0xa5], 2).is_err());
}

#[test]
fn clear_plan_frees_every_slot() {
    let plan = TableWrite::<u8, 3>::clear_plan(Bank::A);
    assert!(matches!(flag_write(&plan[0]), (Bank::B, CellWrite::Flag(0))));
    assert!(matches!(flag_write(&plan[1]), (Bank::B, CellWrite::Value([0, 0, 0]))));
    assert!(matches!(flag_write(&plan[2]), (Bank::B, CellWrite::Flag(0xa5))));
    assert!(matches!(flag_write(&plan[3]), (Bank::A, CellWrite::Flag(0))));
}

/// A table with 10 and 20 in slots 0 and 1, whose flags were updated twice:
/// they are in buffer A again.
fn two_items() -> Collection<u8, 4> {
    let mut table = Collection::<u8, 4>::new(0);
    assert_eq!(table.add(&10), Ok(()));
    assert_eq!(table.add(&20), Ok(()));
    table
}

#[test]
fn add_is_its_plan() {
    let mut by_add = two_items();
    let mut by_plan = two_items();
    assert_eq!(by_add.add(&30), Ok(()));
    let plan = TableWrite::add_plan(Bank::A, &[0xa5, 0xa5, 0, 0], &30u8).unwrap();
    for w in plan.iter() {
        by_plan.write_cell(w);
    }
    assert_eq!(gets(&by_plan), gets(&by_add));
    assert_eq!(gets(&by_plan), vec![10, 20, 30]);
    assert_eq!(by_plan.add(&40), Ok(()));
    assert_eq!(by_add.add(&40), Ok(()));
    assert_eq!(gets(&by_plan), gets(&by_add));
}

#[test]
fn interrupted_add_shows_the_old_or_the_new_items() {
    let plan = TableWrite::add_plan(Bank::A, &[0xa5, 0xa5, 0, 0], &30u8).unwrap();
    for done in 0..=5 {
        let mut table = two_items();
        for w in plan.iter().take(done) {
            table.write_cell(w);
        }
        let found = gets(&table);
        assert!(found == vec![10, 20] || found == vec![10, 20, 30]);
        assert_eq!(items(&table), found);
        assert_eq!(table.len() + table.remaining(), 4);
        // The table goes on working from what was found.
        assert_eq!(table.add(&40), Ok(()));
        let mut expected = found.clone();
        expected.push(40);
        assert_eq!(gets(&table), expected);
    }
}

#[test]
fn torn_slot_and_torn_flags_are_never_read() {
    let plan = TableWrite::add_plan(Bank::A, &[0xa5, 0xa5, 0, 0], &30u8).unwrap();
    // The write of the slot was cut short.
    let mut table = two_items();
    table.write_cell(&TableWrite::Slot(2, 0x1e));
    assert_eq!(gets(&table), vec![10, 20]);
    // The write of the new flags was cut short.
    let mut table = two_items();
    table.write_cell(&plan[0]);
    table.write_cell(&plan[1]);
    table.write_cell(&TableWrite::Flags(RawWrite {
        bank: Bank::B,
        write: CellWrite::Value([0xa5, 0, 0xa5, 0xa5]),
    }));
    assert_eq!(gets(&table), vec![10, 20]);
    assert_eq!(table.add(&30), Ok(()));
    assert_eq!(gets(&table), vec![10, 20, 30]);
}

#[test]
fn interrupted_remove_shows_the_old_or_the_new_items() {
    let plan = TableWrite::<u8, 4>::remove_plan(Bank::A, &[0xa5, 0xa5, 0, 0], 0).unwrap();
    for done in 0..=4 {
        let mut table = two_items();
        for w in plan.iter().take(done) {
            table.write_cell(w);
        }
        let found = gets(&table);
        assert!(found == vec![10, 20] || found == vec![20]);
    }
}

#[test]
fn interrupted_clear_shows_the_old_items_or_none() {
    let plan = TableWrite::<u8, 4>::clear_plan(Bank::A);
    for done in 0..=4 {
        let mut table = two_items();
        for w in plan.iter().take(done) {
            table.write_cell(w);
        }
        let found = gets(&table);
        assert!(found == vec![10, 20] || found.is_empty());
    }
}
