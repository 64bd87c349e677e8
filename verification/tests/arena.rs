use guest_abi::arena::{allocate, deallocate, Arena};

#[test]
fn new_arena_has_no_live_pointer() {
    let arena = Arena::new();
    assert!(!arena.is_live(0));
    assert!(!arena.is_live(1));
    assert!(!arena.is_live(usize::MAX));
}

#[test]
fn allocate_gives_a_region_of_the_size_asked_for() {
    let mut arena = Arena::new();
    let pointer = allocate(&mut arena, 5);
    assert!(arena.is_live(pointer));
    assert_eq!(arena.peek(pointer).len(), 5);
    arena.write(pointer, 0, &[1, 2, 3, 4, 5]);
    assert_eq!(arena.peek(pointer), &[1u8, 2, 3, 4, 5][..]);
    assert_eq!(arena.read(pointer, 0, 5), vec![1u8, 2, 3, 4, 5]);
}

#[test]
fn allocate_never_hands_out_the_null_pointer() {
    let mut arena = Arena::new();
    let first = allocate(&mut arena, 3);
    assert_ne!(first, 0);
    assert!(!arena.is_live(0));
    let empty = allocate(&mut arena, 0);
    assert_ne!(empty, 0);
    let placed = arena.place(vec![1, 2]);
    assert_ne!(placed, 0);
    deallocate(&mut arena, first, 3);
    deallocate(&mut arena, empty, 0);
    let _ = arena.reclaim(placed);
    assert_ne!(allocate(&mut arena, 1), 0);
    assert!(!arena.is_live(0));
}

#[test]
fn allocate_of_nothing_gives_an_empty_region() {
    let mut arena = Arena::new();
    let pointer = allocate(&mut arena, 0);
    assert!(arena.is_live(pointer));
    assert_eq!(arena.peek(pointer).len(), 0);
    assert_eq!(arena.read(pointer, 0, 0), Vec::<u8>::new());
    deallocate(&mut arena, pointer, 0);
    assert!(!arena.is_live(pointer));
}

#[test]
fn allocate_never_hands_out_a_live_pointer() {
    let mut arena = Arena::new();
    let first = allocate(&mut arena, 3);
    let second = allocate(&mut arena, 3);
    let third = allocate(&mut arena, 0);
    assert_ne!(first, second);
    assert_ne!(first, third);
    assert_ne!(second, third);
    deallocate(&mut arena, second, 3);
    let fourth = allocate(&mut arena, 7);
    assert_ne!(fourth, first);
    assert_ne!(fourth, third);
    assert_eq!(arena.peek(fourth).len(), 7);
}

#[test]
fn deallocate_ends_the_region() {
    let mut arena = Arena::new();
    let pointer = allocate(&mut arena, 4);
    deallocate(&mut arena, pointer, 4);
    assert!(!arena.is_live(pointer));
}

#[test]
fn write_changes_the_bytes_it_covers_and_no_others() {
    let mut arena = Arena::new();
    let pointer = allocate(&mut arena, 6);
    arena.write(pointer, 0, &[1, 2, 3, 4, 5, 6]);
    arena.write(pointer, 2, &[7, 8, 9]);
    assert_eq!(arena.peek(pointer), &[1u8, 2, 7, 8, 9, 6][..]);
    arena.write(pointer, 0, &[0]);
    assert_eq!(arena.peek(pointer), &[0u8, 2, 7, 8, 9, 6][..]);
    arena.write(pointer, 5, &[]);
    assert_eq!(arena.peek(pointer), &[0u8, 2, 7, 8, 9, 6][..]);
    arena.write(pointer, 6, &[]);
    assert_eq!(arena.peek(pointer), &[0u8, 2, 7, 8, 9, 6][..]);
}

#[test]
fn read_copies_the_range_asked_for() {
    let mut arena = Arena::new();
    let pointer = arena.place(vec![10, 20, 30, 40, 50]);
    assert_eq!(arena.read(pointer, 0, 5), vec![10, 20, 30, 40, 50]);
    assert_eq!(arena.read(pointer, 1, 3), vec![20, 30, 40]);
    assert_eq!(arena.read(pointer, 4, 1), vec![50]);
    assert_eq!(arena.read(pointer, 5, 0), Vec::<u8>::new());
    assert!(arena.is_live(pointer));
    assert_eq!(arena.peek(pointer), &[10u8, 20, 30, 40, 50][..]);
}

#[test]
fn place_and_reclaim_hand_a_buffer_in_and_out() {
    let mut arena = Arena::new();
    let pointer = arena.place(vec![1, 2, 3]);
    assert!(arena.is_live(pointer));
    let region = arena.reclaim(pointer);
    assert_eq!(region, vec![1, 2, 3]);
    assert!(!arena.is_live(pointer));
}

#[test]
fn regions_keep_their_patterns_when_the_first_is_released() {
    let mut arena = Arena::new();
    let first = allocate(&mut arena, 4);
    let second = allocate(&mut arena, 6);
    arena.write(first, 0, &[0xAA; 4]);
    arena.write(second, 0, &[0x55; 6]);
    deallocate(&mut arena, first, 4);
    assert!(!arena.is_live(first));
    assert_eq!(arena.read(second, 0, 6), vec![0x55; 6]);
    deallocate(&mut arena, second, 6);
    assert!(!arena.is_live(second));
}

#[test]
fn regions_keep_their_patterns_when_the_second_is_released() {
    let mut arena = Arena::new();
    let first = allocate(&mut arena, 4);
    let second = allocate(&mut arena, 6);
    arena.write(first, 0, &[0xAA; 4]);
    arena.write(second, 0, &[0x55; 6]);
    deallocate(&mut arena, second, 6);
    assert!(!arena.is_live(second));
    assert_eq!(arena.read(first, 0, 4), vec![0xAA; 4]);
    deallocate(&mut arena, first, 4);
    assert!(!arena.is_live(first));
}

#[test]
fn writing_one_region_leaves_the_other_alone() {
    let mut arena = Arena::new();
    let first = allocate(&mut arena, 3);
    let second = allocate(&mut arena, 3);
    arena.write(second, 0, &[9, 9, 9]);
    arena.write(first, 0, &[1, 2, 3]);
    assert_eq!(arena.peek(second), &[9u8, 9, 9][..]);
    arena.write(second, 0, &[4, 5, 6]);
    assert_eq!(arena.peek(first), &[1u8, 2, 3][..]);
    assert_eq!(arena.peek(second), &[4u8, 5, 6][..]);
}
