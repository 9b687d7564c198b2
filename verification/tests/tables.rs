use arena_bench::arena::SharedArena;
use arena_bench::arena_table::{
    arena_rounds, arena_table, arena_table_bytes, profile_arena_capacity, profile_arena_chunk_size,
    table_fits, table_shortage, ArenaTable, Shortage,
};
use arena_bench::bump::ThreadBump;
use arena_bench::bumpalo_table::{
    bump_round, bump_scope_m, bump_shared_m, do_work, profile_bump_chunk_size, shared_bump,
    shared_capacity, BumpTable,
};
use arena_bench::heap::{heap_table, mimm, HeapTable};
use arena_bench::sizing::total_capacity;
use arena_bench::words::word_bytes;
use arena_bench::workload::{cell, Load};
use bumpalo::Bump;

fn light_bytes() -> usize {
    10_000 * (4 * word_bytes() + 800 * word_bytes() + 600)
}

fn light_bump_bytes() -> usize {
    10_000 * (4 * word_bytes() + 1600 * word_bytes() + 600)
}

fn check_arena_table(table: &ArenaTable, bump: &ThreadBump<'_>, rows: usize) -> usize {
    let mut strings = 0;
    for index in 0..rows {
        let row = table.get(bump, index);
        for cell_index in 0..100 {
            assert_eq!(row.get(bump, cell_index).deref(bump), "stroka");
            strings += 1;
        }
    }
    strings
}

#[test]
fn cell_is_the_word() {
    assert_eq!(cell(), "stroka");
}

#[test]
fn heap_table_of_the_light_load() {
    let table = heap_table(Load::Light);
    assert_eq!(table.len(), 10_000);
    for row in &table {
        assert_eq!(row.len(), 100);
        assert!(row.capacity() >= 400);
        assert!(row.iter().all(|text| text == "stroka"));
    }
}

#[test]
fn heap_table_of_the_full_load() {
    let table = heap_table(Load::Full);
    assert_eq!(table.len(), 40_000);
    assert!(table.iter().all(|row| row.len() == 100 && row[99] == "stroka"));
}

#[test]
fn heap_rounds_show_every_table() {
    let seen = mimm(Load::Light, |table: HeapTable| (table.len(), table[9_999].len()));
    assert_eq!(seen, vec![(10_000, 100); 3]);
}

#[test]
fn bump_table_of_the_light_load() {
    let bump = Bump::new();
    let table = do_work(Load::Light, &bump);
    assert_eq!(table.len(), 10_000);
    assert_eq!(table.capacity(), 10_000);
    for row in &table {
        assert_eq!(row.len(), 100);
        assert_eq!(row.capacity(), 400);
        assert!(row.iter().all(|text| text.as_str() == "stroka"));
    }
}

#[test]
fn bump_table_of_the_full_load() {
    let bump = Bump::new();
    let table = do_work(Load::Full, &bump);
    assert_eq!(table.len(), 40_000);
    assert_eq!(table.capacity(), 40_000);
    assert!(table.iter().all(|row| row.len() == 100 && row[0].as_str() == "stroka"));
}

#[test]
fn bump_table_lies_in_the_chunks_of_its_arena() {
    let bump = Bump::new();
    let other = Bump::new();
    let table = do_work(Load::Full, &bump);
    assert_eq!(4 * light_bump_bytes(), if word_bytes() == 8 { 537_280_000 } else { 280_640_000 });
    assert!(bump.allocated_bytes() >= 4 * light_bump_bytes());
    assert!(std::ptr::eq(table.bump(), &bump));
    assert!(table.iter().all(|row| row.capacity() == 400 && std::ptr::eq(row.bump(), &bump)));
    assert_eq!(other.allocated_bytes(), 0);
}

fn measure(table: BumpTable<'_>) -> (usize, String) {
    (table.len(), table[0][0].as_str().to_string())
}

fn bytes_in_use(bump: &mut Bump) -> usize {
    bump.iter_allocated_chunks().map(|chunk| chunk.len()).sum()
}

#[test]
fn bump_round_resets_the_arena() {
    let mut bump = shared_bump(1024, 2).unwrap();
    assert!(bump.allocated_bytes() >= 4096);
    for _ in 0..2 {
        let seen = bump_round(Load::Light, &mut bump, &measure);
        assert_eq!(seen, (10_000, String::from("stroka")));
        assert_eq!(bytes_in_use(&mut bump), 0);
    }
    // Without a reset the table's bytes stay in use.
    do_work(Load::Light, &bump);
    assert!(bytes_in_use(&mut bump) >= light_bump_bytes() - 10_000 * 600);
}

#[test]
fn bump_round_gives_back_all_but_one_chunk() {
    let mut bump = Bump::new();
    let held = |table: BumpTable<'_>| table.bump().allocated_bytes();
    let during = bump_round(Load::Light, &mut bump, &held);
    assert!(during >= light_bump_bytes());
    assert!(bump.allocated_bytes() < during);
}

#[test]
fn scoped_bump_does_not_grow_from_round_to_round() {
    let held = |table: BumpTable<'_>| table.bump().allocated_bytes();
    let room = 2 * light_bump_bytes();
    let seen = bump_scope_m(Load::Light, room, held).unwrap();
    assert!(seen[0] >= room);
    assert_eq!(seen, vec![seen[0]; 3]);
}

#[test]
fn every_round_has_a_turn_with_the_shared_arena() {
    let turns = std::cell::Cell::new(0);
    let shared = std::cell::RefCell::new(shared_bump(1024, 1).unwrap());
    let seen = bump_shared_m(|| {
        turns.set(turns.get() + 1);
        let found = bump_round(Load::Light, &mut shared.borrow_mut(), &measure);
        (turns.get(), found.0)
    });
    assert_eq!(seen, vec![(1, 10_000), (2, 10_000), (3, 10_000)]);
    assert_eq!(bytes_in_use(&mut shared.borrow_mut()), 0);
}

#[test]
fn scoped_bump_runs_all_rounds() {
    let seen = bump_scope_m(Load::Light, 1 << 20, measure).unwrap();
    assert_eq!(seen, vec![(10_000, String::from("stroka")); 3]);
    let from_nothing = bump_scope_m(Load::Light, 0, measure).unwrap();
    assert_eq!(from_nothing.len(), 3);
}

#[test]
fn scoped_bump_of_impossible_size_is_refused() {
    assert!(bump_scope_m(Load::Light, usize::MAX, measure).is_none());
}

#[test]
fn shared_capacity_is_twice_all_chunks() {
    assert_eq!(shared_capacity(10, 3), Some(60));
    assert_eq!(shared_capacity(0, 3), Some(0));
    assert_eq!(shared_capacity(usize::MAX / 2, 1), Some(usize::MAX - 1));
    assert_eq!(shared_capacity(usize::MAX / 2 + 1, 1), None);
    assert_eq!(shared_capacity(usize::MAX, 2), None);
}

#[test]
fn shared_bump_has_the_shared_capacity() {
    let bump = shared_bump(100_000, 3).unwrap();
    assert!(bump.allocated_bytes() >= 600_000);
    assert!(shared_bump(usize::MAX, 2).is_none());
    assert_eq!(shared_bump(0, 8).unwrap().allocated_bytes(), 0);
}

#[test]
fn bump_profile_is_whole_mebibytes_and_covers_the_table() {
    let size = profile_bump_chunk_size(Load::Light).unwrap();
    assert_eq!(size % (1024 * 1024), 0);
    // Slots and characters alone take this much.
    assert!(size >= light_bump_bytes());
    // A fifth is added to what the arena took, which is not less than the table takes.
    assert!(size >= light_bump_bytes() / 5 * 6);
}

#[test]
fn arena_table_takes_what_it_should() {
    assert_eq!(arena_table_bytes(Load::Light), light_bytes());
    assert_eq!(arena_table_bytes(Load::Full), 4 * light_bytes());
}

#[test]
fn arena_table_of_the_light_load() {
    let mut memory = vec![0xAA; light_bytes() + 10];
    let mut arena = SharedArena::new(&mut memory);
    let mut bump = arena.split(1).pop().unwrap();
    assert!(table_fits(Load::Light, &bump));
    let table = arena_table(Load::Light, &mut bump);
    assert_eq!(bump.allocated_bytes(), light_bytes());
    assert_eq!(check_arena_table(&table, &bump, 10_000), 1_000_000);
    assert!(!table_fits(Load::Light, &bump));
    assert_eq!(bump.as_slice()[light_bytes() + 1], 0xAA);
}

#[test]
fn arena_table_needs_every_byte() {
    let mut memory = vec![0; light_bytes()];
    let mut arena = SharedArena::new(&mut memory);
    let bump = arena.split(1).pop().unwrap();
    assert!(table_fits(Load::Light, &bump));
    let mut short = vec![0; light_bytes() - 1];
    let mut tight = SharedArena::new(&mut short);
    let cramped = tight.split(1).pop().unwrap();
    assert!(!table_fits(Load::Light, &cramped));
}

#[test]
fn arena_rounds_reuse_the_same_bytes() {
    let mut memory = vec![0; light_bytes()];
    let mut arena = SharedArena::new(&mut memory);
    let mut bump = arena.split(1).pop().unwrap();
    let seen = arena_rounds(Load::Light, &mut bump, |table: ArenaTable, bump: &ThreadBump<'_>| {
        (bump.allocated_bytes(), check_arena_table(&table, bump, 10_000))
    });
    assert_eq!(seen, vec![(light_bytes(), 1_000_000); 3]);
    assert_eq!(bump.allocated_bytes(), 0);
}

fn shortage_of(size: usize) -> Shortage {
    let mut memory = vec![0; size];
    let mut arena = SharedArena::new(&mut memory);
    let bump = arena.split(1).pop().unwrap();
    assert!(!table_fits(Load::Light, &bump));
    table_shortage(Load::Light, &bump)
}

#[test]
fn shortage_names_the_first_request_that_fails() {
    let head = 10_000 * 4 * word_bytes();
    let slots = 800 * word_bytes();
    assert!(shortage_of(100) == Shortage { need: head, offset: 0 });
    assert!(shortage_of(head - 1) == Shortage { need: head, offset: 0 });
    assert!(shortage_of(head) == Shortage { need: slots, offset: head });
    assert!(shortage_of(head + slots + 13) == Shortage { need: 6, offset: head + slots + 12 });
    let second = head + slots + 600;
    assert!(shortage_of(second + 10) == Shortage { need: slots, offset: second });
    assert!(shortage_of(light_bytes() - 1) == Shortage { need: 6, offset: light_bytes() - 6 });
}

#[test]
fn arena_rounds_start_over_after_the_first() {
    let mut memory = vec![0; light_bytes() + 64];
    let mut arena = SharedArena::new(&mut memory);
    let mut bump = arena.split(1).pop().unwrap();
    bump.alloc_raw(5, 1);
    let used = |_: ArenaTable, bump: &ThreadBump<'_>| bump.allocated_bytes();
    let seen = arena_rounds(Load::Light, &mut bump, used);
    assert_eq!(seen, vec![light_bytes() + word_bytes().max(8), light_bytes(), light_bytes()]);
}

#[test]
fn arena_rounds_of_the_full_load() {
    let mut memory = vec![0; 4 * light_bytes()];
    let mut arena = SharedArena::new(&mut memory);
    let mut bump = arena.split(1).pop().unwrap();
    let seen = arena_rounds(Load::Full, &mut bump, |table: ArenaTable, bump: &ThreadBump<'_>| {
        let row = table.get(bump, 39_999);
        row.get(bump, 99).to_string(bump)
    });
    assert_eq!(seen, vec!["stroka"; 3]);
}

#[test]
fn arena_profile_of_the_light_load() {
    let mut memory = vec![0; light_bytes()];
    let mut arena = SharedArena::new(&mut memory);
    let size = profile_arena_chunk_size(Load::Light, &mut arena);
    assert_eq!(size, Some(71 * 1024 * 1024));
    assert!(size.unwrap() >= arena_table_bytes(Load::Light));
}

#[test]
fn arena_profile_of_the_full_load() {
    let mut memory = vec![0; 4 * light_bytes()];
    let mut arena = SharedArena::new(&mut memory);
    let size = profile_arena_chunk_size(Load::Full, &mut arena);
    assert_eq!(size, Some(282 * 1024 * 1024));
}

#[test]
fn profile_arenas_are_large_enough() {
    assert_eq!(profile_arena_capacity(Load::Full), 1024 * 1024 * 1024);
    assert_eq!(profile_arena_capacity(Load::Light), 512 * 1024 * 1024);
    for load in [Load::Full, Load::Light] {
        assert!(profile_arena_capacity(load) >= arena_table_bytes(load));
    }
}

#[test]
fn profiled_arena_holds_a_table_for_every_thread() {
    let chunk = {
        let mut memory = vec![0; light_bytes()];
        let mut arena = SharedArena::new(&mut memory);
        profile_arena_chunk_size(Load::Light, &mut arena).unwrap()
    };
    let total = total_capacity(chunk, 3).unwrap();
    let mut memory = vec![0; total];
    let mut arena = SharedArena::new(&mut memory);
    for bump in arena.split(3) {
        assert_eq!(bump.capacity(), chunk);
        assert!(table_fits(Load::Light, &bump));
    }
}
