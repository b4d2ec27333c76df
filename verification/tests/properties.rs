use arena_rust::{Arena, DEFAULT_ALIGNMENT};

fn arena_of(capacity: usize) -> Arena {
    match Arena::with_capacity(capacity) {
        Some(arena) => arena,
        None => panic!("the OS refused an anonymous mapping of {} bytes", capacity),
    }
}

#[test]
fn fresh_arena_capacity_and_offset() {
    let arena = arena_of(16384);
    assert_eq!(arena.capacity, 16384);
    assert_eq!(arena.offset, 0);
}

#[test]
fn fresh_arena_matches_page_size() {
    let arena = match Arena::new() {
        Some(arena) => arena,
        None => panic!("the OS refused a page-sized anonymous mapping"),
    };
    let page = arena_rust::sysgetconf::get_page_size();
    assert!(page >= 1);
    assert_eq!(arena.capacity, page);
    assert_eq!(arena.ptr.len(), arena.capacity);
    assert_eq!(arena.offset, 0);
}

#[test]
fn successive_allocations_are_adjacent() {
    let mut arena = arena_of(16384);
    let first = arena.allocate_mem(7).expect("7 bytes fit");
    let second = arena.allocate_mem(7).expect("7 more bytes fit");
    assert_eq!(first.start, 0);
    assert_eq!(second.start, 7);
    assert_eq!(arena.offset, 14);
}

#[test]
fn allocation_view_has_requested_length() {
    let mut arena = arena_of(16384);
    let view = arena.allocate_mem(8).expect("8 bytes fit");
    assert_eq!(view.len, 8);
}

#[test]
fn exhaustion_is_terminal_and_side_effect_free() {
    let mut arena = arena_of(16384);
    let whole = arena.allocate_mem(16384).expect("the whole capacity fits");
    assert_eq!(whole.start, 0);
    assert_eq!(whole.len, 16384);
    assert!(arena.is_exhausted());
    let refused = arena.allocate_mem(8);
    assert!(refused.is_none(), "an exhausted arena reports no space");
    assert_eq!(arena.offset, 16384, "a refused request leaves the cursor unchanged");
}

#[test]
fn oversized_request_is_refused_without_side_effect() {
    let mut arena = arena_of(8);
    assert!(arena.allocate_mem(9).is_none());
    assert_eq!(arena.offset, 0);
    assert!(!arena.is_exhausted());
}

#[test]
fn zero_length_allocation_trivially_succeeds() {
    let mut arena = arena_of(8);
    let view = arena.allocate_mem(0).expect("zero bytes always fit");
    assert_eq!(view.start, 0);
    assert_eq!(view.len, 0);
    assert_eq!(arena.offset, 0);
}

#[test]
fn align_up_pads_to_default_alignment() {
    assert_eq!(Arena::alignment(7, DEFAULT_ALIGNMENT), 16, "9 bytes of padding added");
}

#[test]
fn align_up_properties_hold_on_samples() {
    let alignments: [usize; 4] = [1, 2, 16, 4096];
    let addresses: [usize; 6] = [0, 1, 7, 15, 16, 12345];
    for &a in alignments.iter() {
        for &x in addresses.iter() {
            let r = Arena::alignment(x, a);
            assert!(r >= x);
            assert_eq!(r % a, 0);
            assert!(r - x < a);
        }
    }
}

#[test]
fn align_up_leaves_aligned_addresses_unchanged() {
    assert_eq!(Arena::alignment(0, 16), 0);
    assert_eq!(Arena::alignment(32, 16), 32);
    assert_eq!(Arena::alignment(4096, 4096), 4096);
    assert_eq!(Arena::alignment(5, 1), 5);
}

#[test]
fn fresh_region_is_zero_filled_and_views_are_writable() {
    let mut arena = arena_of(64);
    let view = arena.allocate_mem(8).expect("8 bytes fit");
    for i in 0..8 {
        assert_eq!(arena.read_byte(&view, i), 0, "anonymous mappings start zeroed");
    }
    arena.write_byte(&view, 3, 0xAB);
    assert_eq!(arena.read_byte(&view, 3), 0xAB);
    assert_eq!(arena.read_byte(&view, 2), 0);
    assert_eq!(arena.read_byte(&view, 4), 0);
}

#[test]
fn writes_through_one_view_leave_other_views_alone() {
    let mut arena = arena_of(64);
    let first = arena.allocate_mem(4).expect("4 bytes fit");
    let second = arena.allocate_mem(4).expect("4 more bytes fit");
    arena.write_byte(&first, 0, 1);
    arena.write_byte(&second, 0, 2);
    assert_eq!(arena.read_byte(&first, 0), 1);
    assert_eq!(arena.read_byte(&second, 0), 2);
    assert_eq!(arena.read_byte(&first, 3), 0);
}

#[test]
fn aligned_allocation_rounds_the_cursor_up() {
    let mut arena = arena_of(64);
    let first = arena.allocate_mem(7).expect("7 bytes fit");
    assert_eq!(first.start, 0);
    let aligned = arena.allocate_aligned(4, 16).expect("4 aligned bytes fit");
    assert_eq!(aligned.start, 16, "the cursor at 7 rounds up to 16");
    assert_eq!(aligned.len, 4);
    assert_eq!(arena.offset, 20);
    assert!(arena.allocate_aligned(64, 16).is_none());
    assert_eq!(arena.offset, 20, "a refused aligned request leaves the cursor unchanged");
}

#[test]
fn aligned_allocation_on_aligned_cursor_adds_no_padding() {
    let mut arena = arena_of(64);
    let view = arena.allocate_aligned(8, 16).expect("8 bytes fit at offset 0");
    assert_eq!(view.start, 0);
    assert_eq!(arena.offset, 8);
}
