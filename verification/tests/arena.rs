use arena_bench::arena::SharedArena;
use arena_bench::arena_string::ArenaString;
use arena_bench::arena_vec::ArenaVec;
use arena_bench::bump::ThreadBump;
use arena_bench::words::{load_word, store_word, word_bytes};

fn buffer(len: usize) -> Vec<u8> {
    vec![0xAA; len]
}

#[test]
fn arena_touches_the_first_byte_of_every_page() {
    let mut memory = buffer(3 * 4096 + 5);
    let arena = SharedArena::new(&mut memory);
    let bytes = arena.as_slice();
    for (at, byte) in bytes.iter().enumerate() {
        let expected = if at % 4096 == 0 { 0 } else { 0xAA };
        assert_eq!(*byte, expected, "at {}", at);
    }
}

#[test]
fn arena_of_nothing_is_left_alone() {
    let mut memory = buffer(0);
    let arena = SharedArena::new(&mut memory);
    assert_eq!(arena.as_slice().len(), 0);
}

#[test]
fn arena_whose_length_is_a_whole_number_of_pages() {
    let mut memory = buffer(2 * 4096);
    let arena = SharedArena::new(&mut memory);
    let zeros = arena.as_slice().iter().filter(|byte| **byte == 0).count();
    assert_eq!(zeros, 2);
}

#[test]
fn split_gives_the_remainder_to_the_last_part() {
    let mut memory = buffer(103);
    let mut arena = SharedArena::new(&mut memory);
    let bumps = arena.split(4);
    let sizes: Vec<usize> = bumps.iter().map(|bump| bump.capacity()).collect();
    assert_eq!(sizes, vec![25, 25, 25, 28]);
    let homes: Vec<usize> = bumps.iter().map(|bump| bump.home).collect();
    assert_eq!(homes, vec![0, 1, 2, 3]);
    assert!(bumps.iter().all(|bump| bump.allocated_bytes() == 0));
}

#[test]
fn split_into_more_parts_than_bytes() {
    let mut memory = buffer(3);
    let mut arena = SharedArena::new(&mut memory);
    let sizes: Vec<usize> = arena.split(5).iter().map(|bump| bump.capacity()).collect();
    assert_eq!(sizes, vec![0, 0, 0, 0, 3]);
}

#[test]
fn split_in_one_part_is_the_whole() {
    let mut memory = buffer(77);
    let mut arena = SharedArena::new(&mut memory);
    let bumps = arena.split(1);
    assert_eq!(bumps.len(), 1);
    assert_eq!(bumps[0].capacity(), 77);
}

#[test]
fn parts_write_into_the_arena_one_after_the_other() {
    let mut memory = buffer(20);
    let mut arena = SharedArena::new(&mut memory);
    {
        let mut bumps = arena.split(2);
        ArenaString::from_str_in("left", &mut bumps[0]);
        ArenaString::from_str_in("right", &mut bumps[1]);
    }
    assert_eq!(&arena.as_slice()[0..4], b"left");
    assert_eq!(&arena.as_slice()[10..15], b"right");
    assert_eq!(arena.as_slice()[4], 0xAA);
}

#[test]
fn alloc_raw_rounds_up_to_the_alignment() {
    let mut memory = buffer(64);
    let mut arena = SharedArena::new(&mut memory);
    let mut bump = arena.split(1).pop().unwrap();
    assert_eq!(bump.alloc_raw(3, 1), 0);
    assert_eq!(bump.allocated_bytes(), 3);
    assert_eq!(bump.alloc_raw(4, 8), 8);
    assert_eq!(bump.allocated_bytes(), 12);
    assert_eq!(bump.alloc_raw(0, 16), 16);
    assert_eq!(bump.alloc_raw(48, 16), 16);
    assert_eq!(bump.allocated_bytes(), 64);
}

#[test]
fn alloc_raw_masks_bits_for_odd_alignments() {
    let mut memory = buffer(64);
    let mut arena = SharedArena::new(&mut memory);
    let mut bump = arena.split(1).pop().unwrap();
    bump.alloc_raw(4, 1);
    // (4 + 2) & !2
    assert_eq!(bump.alloc_raw(1, 3), 4);
    // (5 + 2) & !2
    assert_eq!(bump.alloc_raw(1, 3), 5);
}

#[test]
fn has_room_says_when_memory_runs_out() {
    let mut memory = buffer(16);
    let mut arena = SharedArena::new(&mut memory);
    let mut bump = arena.split(1).pop().unwrap();
    assert!(bump.has_room(16, 8));
    assert!(!bump.has_room(17, 1));
    bump.alloc_raw(2, 1);
    assert!(bump.has_room(8, 8));
    assert!(!bump.has_room(9, 8));
    assert!(!bump.has_room(usize::MAX, 1));
    assert!(!bump.has_room(1, usize::MAX));
    assert!(!bump.has_room(1, 0));
}

#[test]
fn allocations_do_not_overlap() {
    let mut memory = buffer(256);
    let mut arena = SharedArena::new(&mut memory);
    let mut bump = arena.split(1).pop().unwrap();
    let requests = [(3, 1), (8, 8), (1, 2), (16, 16), (5, 4)];
    let mut end = 0;
    for (size, align) in requests {
        let start = bump.alloc_raw(size, align);
        assert!(start >= end);
        assert_eq!(start % align, 0);
        end = start + size;
    }
    assert_eq!(bump.allocated_bytes(), end);
}

#[test]
fn reset_starts_over_and_keeps_the_bytes() {
    let mut memory = buffer(32);
    let mut arena = SharedArena::new(&mut memory);
    let mut bump = arena.split(1).pop().unwrap();
    let first = bump.alloc_str("abc");
    bump.reset();
    assert_eq!(bump.allocated_bytes(), 0);
    assert_eq!(&bump.as_slice()[0..3], b"abc");
    assert_eq!(bump.alloc_str("xyz"), first);
    assert_eq!(&bump.as_slice()[0..3], b"xyz");
}

#[test]
fn no_items_take_no_room() {
    let mut memory = buffer(8);
    let mut arena = SharedArena::new(&mut memory);
    let mut bump = arena.split(1).pop().unwrap();
    assert_eq!(bump.alloc_uninit_slice::<ArenaString>(0), None);
    assert_eq!(bump.allocated_bytes(), 0);
}

#[test]
fn items_begin_at_whole_words() {
    let mut memory = buffer(256);
    let mut arena = SharedArena::new(&mut memory);
    let mut bump = arena.split(1).pop().unwrap();
    bump.alloc_raw(1, 1);
    let word = word_bytes();
    assert_eq!(bump.alloc_uninit_slice::<ArenaString>(3), Some(word));
    assert_eq!(bump.allocated_bytes(), word + 3 * 2 * word);
}

#[test]
fn strings_come_back_as_they_went_in() {
    let mut memory = buffer(64);
    let mut arena = SharedArena::new(&mut memory);
    let mut bump = arena.split(1).pop().unwrap();
    let latin = ArenaString::from_str_in("stroka", &mut bump);
    let empty = ArenaString::from_str_in("", &mut bump);
    let cyrillic = ArenaString::from_str_in("строка", &mut bump);
    let emoji = ArenaString::from_str_in("🦀!", &mut bump);
    assert_eq!(latin.deref(&bump), "stroka");
    assert_eq!(empty.deref(&bump), "");
    assert_eq!(cyrillic.deref(&bump), "строка");
    assert_eq!(emoji.to_string(&bump), String::from("🦀!"));
    assert_eq!(bump.allocated_bytes(), 6 + 12 + 5);
}

#[test]
fn string_fills_the_last_byte() {
    let mut memory = buffer(6);
    let mut arena = SharedArena::new(&mut memory);
    let mut bump = arena.split(1).pop().unwrap();
    let text = ArenaString::from_str_in("stroka", &mut bump);
    assert_eq!(text.deref(&bump), "stroka");
    assert!(!bump.has_room(1, 1));
}

fn strings(vec: &ArenaVec<ArenaString>, bump: &ThreadBump<'_>, len: usize) -> Vec<String> {
    (0..len).map(|index| vec.get(bump, index).to_string(bump)).collect()
}

#[test]
fn vector_grows_from_nothing_by_doubling() {
    let word = word_bytes();
    let mut memory = buffer(4096);
    let mut arena = SharedArena::new(&mut memory);
    let mut bump = arena.split(1).pop().unwrap();
    let mut vec: ArenaVec<ArenaString> = ArenaVec::with_capacity_in(0, &mut bump);
    assert_eq!(bump.allocated_bytes(), 0);
    let mut expected = Vec::new();
    // Slots appear four at a time, then as many again as there were.
    let slots_after = [4, 4, 4, 4, 12, 12, 12, 12, 28];
    for (index, slots) in slots_after.iter().enumerate() {
        assert!(vec.has_room(&bump));
        let text = format!("{:08}", index);
        let string = ArenaString::from_str_in(&text, &mut bump);
        expected.push(text);
        vec.push(&mut bump, string);
        assert_eq!(bump.allocated_bytes(), slots * 2 * word + 8 * expected.len());
        assert_eq!(strings(&vec, &bump, expected.len()), expected);
    }
}

#[test]
fn vector_with_capacity_does_not_grow_before_it_is_full() {
    let word = word_bytes();
    let mut memory = buffer(1024);
    let mut arena = SharedArena::new(&mut memory);
    let mut bump = arena.split(1).pop().unwrap();
    let text = ArenaString::from_str_in("12345678", &mut bump);
    let mut vec: ArenaVec<ArenaString> = ArenaVec::with_capacity_in(3, &mut bump);
    for _ in 0..3 {
        vec.push(&mut bump, text);
    }
    assert_eq!(bump.allocated_bytes(), 8 + 3 * 2 * word);
    vec.push(&mut bump, text);
    assert_eq!(bump.allocated_bytes(), 8 + 3 * 2 * word + 6 * 2 * word);
    assert_eq!(strings(&vec, &bump, 4), vec!["12345678"; 4]);
}

#[test]
fn growing_moves_the_items() {
    let mut memory = buffer(1024);
    let mut arena = SharedArena::new(&mut memory);
    let mut bump = arena.split(1).pop().unwrap();
    let one = ArenaString::from_str_in("one", &mut bump);
    let two = ArenaString::from_str_in("two", &mut bump);
    let mut vec: ArenaVec<ArenaString> = ArenaVec::with_capacity_in(2, &mut bump);
    vec.push(&mut bump, one);
    vec.push(&mut bump, two);
    vec.grow(&mut bump);
    assert_eq!(strings(&vec, &bump, 2), vec!["one", "two"]);
}

#[test]
fn vector_says_when_it_cannot_grow() {
    let word = word_bytes();
    let mut memory = buffer(4 * 2 * word - 1);
    let mut arena = SharedArena::new(&mut memory);
    let mut bump = arena.split(1).pop().unwrap();
    let empty: ArenaVec<ArenaString> = ArenaVec::with_capacity_in(0, &mut bump);
    assert!(!empty.has_room(&bump));
    let one: ArenaVec<ArenaString> = ArenaVec::with_capacity_in(1, &mut bump);
    assert!(one.has_room(&bump));
}

#[test]
fn vectors_in_one_arena_do_not_disturb_each_other() {
    let mut memory = buffer(4096);
    let mut arena = SharedArena::new(&mut memory);
    let mut bump = arena.split(1).pop().unwrap();
    let left_text = ArenaString::from_str_in("left", &mut bump);
    let right_text = ArenaString::from_str_in("right", &mut bump);
    let mut left: ArenaVec<ArenaString> = ArenaVec::with_capacity_in(1, &mut bump);
    let mut right: ArenaVec<ArenaString> = ArenaVec::with_capacity_in(1, &mut bump);
    for _ in 0..5 {
        left.push(&mut bump, left_text);
        right.push(&mut bump, right_text);
    }
    assert_eq!(strings(&left, &bump, 5), vec!["left"; 5]);
    assert_eq!(strings(&right, &bump, 5), vec!["right"; 5]);
}

#[test]
fn vectors_nest() {
    let mut memory = buffer(4096);
    let mut arena = SharedArena::new(&mut memory);
    let mut bump = arena.split(1).pop().unwrap();
    let mut outer: ArenaVec<ArenaVec<ArenaString>> = ArenaVec::with_capacity_in(2, &mut bump);
    for word in ["alpha", "beta", "gamma"] {
        let mut inner: ArenaVec<ArenaString> = ArenaVec::with_capacity_in(1, &mut bump);
        let text = ArenaString::from_str_in(word, &mut bump);
        inner.push(&mut bump, text);
        outer.push(&mut bump, inner);
    }
    for (index, word) in ["alpha", "beta", "gamma"].iter().enumerate() {
        let inner = outer.get(&bump, index);
        assert_eq!(inner.get(&bump, 0).deref(&bump), *word);
    }
}

#[test]
fn words_are_stored_least_significant_byte_first() {
    let size = word_bytes();
    let mut memory = buffer(size + 2);
    store_word(&mut memory, 1, 0x0102);
    assert_eq!(memory[0], 0xAA);
    assert_eq!(memory[1], 0x02);
    assert_eq!(memory[2], 0x01);
    assert_eq!(memory[3], 0);
    assert_eq!(memory[size + 1], 0xAA);
    assert_eq!(load_word(&memory, 1), 0x0102);
    store_word(&mut memory, 1, usize::MAX);
    assert_eq!(load_word(&memory, 1), usize::MAX);
}
