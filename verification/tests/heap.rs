use web_libusb::heap::{block_total, free, malloc, realloc, Heap};

#[test]
fn blocks_follow_one_another_with_their_headers() {
    let mut heap = Heap::new(1024);
    let a = malloc(&mut heap, 5);
    assert_eq!(a, 8);
    let b = malloc(&mut heap, 16);
    // 5 + 8 rounded up to 16, then the header of the second block
    assert_eq!(b, 24);
    let c = malloc(&mut heap, 0);
    assert_eq!(c, 48);
    let d = malloc(&mut heap, 1);
    assert_eq!(d, 56);
    assert_eq!(heap.size_of(a), 5);
    assert_eq!(heap.size_of(b), 16);
    assert_eq!(heap.size_of(c), 0);
    assert_eq!(heap.size_of(d), 1);
    for p in [a, b, c, d] {
        assert_eq!(p % 8, 0);
    }
}

#[test]
fn bytes_stay_until_the_block_is_freed() {
    let mut heap = Heap::new(1024);
    let a = malloc(&mut heap, 4);
    for i in 0..4 {
        heap.store(a, i, 10 + i as u8);
    }
    let b = malloc(&mut heap, 3);
    for i in 0..3 {
        heap.store(b, i, 20 + i as u8);
    }
    let c = malloc(&mut heap, 8);
    heap.store(c, 7, 99);
    free(&mut heap, b);
    let d = realloc(&mut heap, c, 64);
    assert_ne!(d, 0);
    for i in 0..4 {
        assert_eq!(heap.load(a, i), 10 + i as u8);
    }
    assert_eq!(heap.size_of(a), 4);
    assert_eq!(heap.load(d, 7), 99);
}

#[test]
fn resize_keeps_the_bytes_that_both_sizes_hold() {
    let mut heap = Heap::new(1024);
    let a = malloc(&mut heap, 4);
    for i in 0..4 {
        heap.store(a, i, 1 + i as u8);
    }
    let grown = realloc(&mut heap, a, 10);
    assert_eq!(grown, 24);
    assert_eq!(heap.size_of(grown), 10);
    for i in 0..4 {
        assert_eq!(heap.load(grown, i), 1 + i as u8);
    }
    let shrunk = realloc(&mut heap, grown, 2);
    assert_eq!(shrunk, 48);
    assert_eq!(heap.size_of(shrunk), 2);
    assert_eq!(heap.load(shrunk, 0), 1);
    assert_eq!(heap.load(shrunk, 1), 2);
}

#[test]
fn resize_of_the_null_address_allocates() {
    let mut heap = Heap::new(64);
    let a = realloc(&mut heap, 0, 12);
    assert_eq!(a, 8);
    assert_eq!(heap.size_of(a), 12);
}

#[test]
fn a_failed_resize_leaves_the_block_intact() {
    let mut heap = Heap::new(32);
    let a = malloc(&mut heap, 8);
    assert_eq!(a, 8);
    for i in 0..8 {
        heap.store(a, i, 0xA0 + i as u8);
    }
    // 16 bytes are left: a block of 9 needs 8 + 9 rounded up to 24
    assert_eq!(realloc(&mut heap, a, 9), 0);
    assert_eq!(heap.size_of(a), 8);
    for i in 0..8 {
        assert_eq!(heap.load(a, i), 0xA0 + i as u8);
    }
    // a block of 8 still fits
    let b = realloc(&mut heap, a, 8);
    assert_eq!(b, 24);
    for i in 0..8 {
        assert_eq!(heap.load(b, i), 0xA0 + i as u8);
    }
}

#[test]
fn allocation_fails_exactly_when_there_is_no_room() {
    let mut heap = Heap::new(24);
    assert_eq!(malloc(&mut heap, 17), 0);
    assert_eq!(malloc(&mut heap, usize::MAX), 0);
    assert_eq!(malloc(&mut heap, usize::MAX - 8), 0);
    let a = malloc(&mut heap, 16);
    assert_eq!(a, 8);
    assert_eq!(malloc(&mut heap, 0), 0);
    // what is freed is not handed out again
    free(&mut heap, a);
    assert_eq!(malloc(&mut heap, 0), 0);
}

#[test]
fn an_empty_memory_has_no_room_at_all() {
    let mut heap = Heap::new(0);
    assert_eq!(malloc(&mut heap, 0), 0);
    let mut heap = Heap::new(7);
    assert_eq!(malloc(&mut heap, 0), 0);
    let mut heap = Heap::new(8);
    assert_eq!(malloc(&mut heap, 0), 8);
}

#[test]
fn a_block_takes_eight_bytes_more_than_it_holds() {
    assert_eq!(block_total(0), Some(8));
    assert_eq!(block_total(5), Some(13));
    assert_eq!(block_total(usize::MAX - 8), Some(usize::MAX));
    assert_eq!(block_total(usize::MAX - 7), None);
    assert_eq!(block_total(usize::MAX), None);
}
