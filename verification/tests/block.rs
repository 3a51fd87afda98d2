use ruback::block::{Block, DEPTH_OFFSET, HEADER_SIZE, MAGIC, MAGIC_OFFSET, SIZE_OFFSET};
use ruback::stack::{Frame, Frames};

fn header() -> Vec<u8> {
    vec![0u8; HEADER_SIZE]
}

fn two_frames() -> Frames {
    let mut frames = Frames::new();
    frames.push(Frame { ip: 0x1001, symbol_address: 0x1000 });
    frames.push(Frame { ip: 0x2002, symbol_address: 0x2000 });
    frames
}

#[test]
fn test_block() {
    const SIZE: usize = 42;
    let ptr: usize = 0x1000;
    let mut memory = vec![0u8; Block::header_size() + SIZE];

    let mut block = Block::new(ptr);
    block.set_size(SIZE);
    block.store(&mut memory[..Block::header_size()]);

    assert_eq!(block.size(), SIZE);

    let body = block.user_payload();

    let adopted = Block::adopt(body, &memory[..Block::header_size()]);
    assert_eq!(adopted.ptr(), block.ptr());
    assert_eq!(adopted.size(), SIZE);
}

#[test]
fn header_size_is_a_multiple_of_64() {
    assert_eq!(Block::header_size(), 576);
    assert_eq!(Block::header_size(), HEADER_SIZE);
    assert_eq!(HEADER_SIZE % 16, 0);
    assert_eq!(HEADER_SIZE % 64, 0);
}

#[test]
fn fresh_block_has_no_size_and_is_ours() {
    let block = Block::new(0x4000);
    assert_eq!(block.ptr(), 0x4000);
    assert_eq!(block.size(), 0);
    assert!(block.check());
    assert_eq!(block.user_payload(), 0x4000 + 576);
}

#[test]
fn set_size_returns_the_previous_size() {
    let mut block = Block::new(0x4000);
    assert_eq!(block.set_size(10), 0);
    assert_eq!(block.set_size(30), 10);
    assert_eq!(block.size(), 30);
}

#[test]
fn rebase_moves_the_handle_only() {
    let mut block = Block::new(0x4000);
    block.set_size(7);
    block.rebase(0x9000);
    assert_eq!(block.ptr(), 0x9000);
    assert_eq!(block.user_payload(), 0x9000 + HEADER_SIZE);
    assert_eq!(block.size(), 7);
    assert!(block.check());
}

#[test]
fn store_lays_the_words_out_little_endian() {
    let mut bytes = header();
    let mut block = Block::new(0x4000);
    block.set_size(0x0102_0304);
    block.store(&mut bytes);
    assert_eq!(&bytes[SIZE_OFFSET..SIZE_OFFSET + 8], &[4, 3, 2, 1, 0, 0, 0, 0]);
    assert_eq!(&bytes[MAGIC_OFFSET..MAGIC_OFFSET + 8], &MAGIC.to_le_bytes());
    assert_eq!(&bytes[DEPTH_OFFSET..DEPTH_OFFSET + 8], &[0u8; 8]);
    assert_eq!(MAGIC, 0xFEED_DEAD_BEEF_F00D);
}

#[test]
fn stack_survives_the_round_trip() {
    let mut bytes = header();
    let mut block = Block::new(0x4000);
    block.set_size(100);
    let taken = block.backtrace(true, two_frames);
    assert_eq!(taken.len(), 2);
    block.store(&mut bytes);
    assert_eq!(&bytes[DEPTH_OFFSET..DEPTH_OFFSET + 8], &[3, 0, 0, 0, 0, 0, 0, 0]);
    assert_eq!(&bytes[0..8], &0x1001u64.to_le_bytes());
    assert_eq!(&bytes[8..16], &0x1000u64.to_le_bytes());
    assert_eq!(&bytes[16..24], &0x2002u64.to_le_bytes());
    assert_eq!(&bytes[24..32], &0x2000u64.to_le_bytes());

    let mut adopted = Block::adopt(0x4000 + HEADER_SIZE, &bytes);
    assert!(adopted.check());
    assert_eq!(adopted.size(), 100);
    let kept = adopted.backtrace(false, Frames::new);
    assert_eq!(kept.len(), 2);
    assert_eq!(kept.get(0), Frame { ip: 0x1001, symbol_address: 0x1000 });
    assert_eq!(kept.get(1), Frame { ip: 0x2002, symbol_address: 0x2000 });
}

#[test]
fn empty_stack_is_not_no_stack() {
    let mut bytes = header();
    let mut block = Block::new(0x4000);
    // A capture that found no frame still is the block's stack.
    let taken = block.backtrace(true, Frames::new);
    assert!(taken.is_empty());
    block.store(&mut bytes);
    assert_eq!(bytes[DEPTH_OFFSET], 1);
    let mut adopted = Block::adopt(0x4000 + HEADER_SIZE, &bytes);
    // A second capture is not taken: the empty stack is kept.
    let kept = adopted.backtrace(true, two_frames);
    assert!(kept.is_empty());
}

#[test]
fn backtrace_keeps_the_first_stack() {
    let mut block = Block::new(0x4000);
    let first = block.backtrace(true, two_frames);
    let again = block.backtrace(true, Frames::new);
    assert_eq!(first.len(), 2);
    assert_eq!(again.len(), 2);
    assert!(first == again);
}

#[test]
fn backtrace_without_capture_is_empty() {
    let mut bytes = header();
    let mut block = Block::new(0x4000);
    let stack = block.backtrace(false, two_frames);
    assert!(stack.is_empty());
    // And nothing was attached.
    block.store(&mut bytes);
    assert_eq!(&bytes[DEPTH_OFFSET..DEPTH_OFFSET + 8], &[0u8; 8]);
}

#[test]
fn free_lets_go_of_the_stack() {
    let mut bytes = header();
    let mut block = Block::new(0x4000);
    block.set_size(5);
    block.backtrace(true, two_frames);
    block.free();
    assert_eq!(block.size(), 5);
    assert!(block.check());
    block.store(&mut bytes);
    assert_eq!(&bytes[DEPTH_OFFSET..DEPTH_OFFSET + 8], &[0u8; 8]);
    let mut adopted = Block::adopt(0x4000 + HEADER_SIZE, &bytes);
    assert!(adopted.backtrace(false, Frames::new).is_empty());
}

#[test]
fn foreign_bytes_are_not_ours() {
    let mut bytes = header();
    // Something that looks like a size, but no magic word.
    bytes[SIZE_OFFSET] = 77;
    bytes[DEPTH_OFFSET] = 2;
    let adopted = Block::adopt(0x4000 + HEADER_SIZE, &bytes);
    assert!(!adopted.check());
    assert_eq!(adopted.ptr(), 0x4000);
    // Nothing but the magic word is read from a foreign header.
    assert_eq!(adopted.size(), 0);
}

#[test]
fn foreign_header_is_never_written() {
    let mut bytes = vec![0xabu8; HEADER_SIZE];
    let mut adopted = Block::adopt(0x4000 + HEADER_SIZE, &bytes);
    assert!(!adopted.check());
    adopted.set_size(9);
    adopted.store(&mut bytes);
    assert_eq!(bytes, vec![0xabu8; HEADER_SIZE]);
}

#[test]
fn depth_word_out_of_range_means_no_stack() {
    let mut bytes = header();
    let block = Block::new(0x4000);
    block.store(&mut bytes);
    bytes[DEPTH_OFFSET] = 34;
    let mut adopted = Block::adopt(0x4000 + HEADER_SIZE, &bytes);
    assert!(adopted.check());
    assert!(adopted.backtrace(false, Frames::new).is_empty());
    // With no stack kept, a capture is taken.
    assert_eq!(adopted.backtrace(true, two_frames).len(), 2);
}

#[test]
fn full_stack_round_trip() {
    let mut frames = Frames::new();
    for i in 0..32usize {
        frames.push(Frame { ip: 0x100 + i, symbol_address: 0x10 * i });
    }
    let mut bytes = header();
    let mut block = Block::new(0x4000);
    block.backtrace(true, move || frames);
    block.store(&mut bytes);
    assert_eq!(bytes[DEPTH_OFFSET], 33);
    let mut adopted = Block::adopt(0x4000 + HEADER_SIZE, &bytes);
    let kept = adopted.backtrace(false, Frames::new);
    assert_eq!(kept.len(), 32);
    for i in 0..32usize {
        assert_eq!(kept.get(i), Frame { ip: 0x100 + i, symbol_address: 0x10 * i });
    }
}
