use ruback::stack::{Frame, Frames, MAX_DEPTH};
use std::collections::hash_map::DefaultHasher;
use std::collections::HashSet;
use std::hash::{Hash, Hasher};

fn frame(ip: usize, symbol_address: usize) -> Frame {
    Frame { ip, symbol_address }
}

#[test]
fn new_record_is_empty() {
    let frames = Frames::new();
    assert_eq!(frames.len(), 0);
    assert!(frames.is_empty());
}

#[test]
fn push_appends_in_order() {
    let mut frames = Frames::new();
    assert!(frames.push(frame(0x1001, 0x1000)));
    assert!(frames.push(frame(0x2002, 0x2000)));
    assert_eq!(frames.len(), 2);
    assert!(!frames.is_empty());
    assert_eq!(frames.get(0), frame(0x1001, 0x1000));
    assert_eq!(frames.get(1), frame(0x2002, 0x2000));
}

#[test]
fn depth_is_bounded() {
    assert_eq!(MAX_DEPTH, 32);
    let mut frames = Frames::new();
    for i in 0..MAX_DEPTH - 1 {
        assert!(frames.push(frame(i, i)), "room left after frame {}", i);
    }
    // The last frame that fits says that there is no room for more.
    assert!(!frames.push(frame(31, 31)));
    assert_eq!(frames.len(), MAX_DEPTH);
    // A full record is left as it is.
    assert!(!frames.push(frame(99, 99)));
    assert_eq!(frames.len(), MAX_DEPTH);
    assert_eq!(frames.get(MAX_DEPTH - 1), frame(31, 31));
}

#[test]
fn equality_is_by_symbol_address() {
    let mut a = Frames::new();
    a.push(frame(0x1001, 0x1000));
    a.push(frame(0x2002, 0x2000));
    // Two capture sites in the same functions.
    let mut b = Frames::new();
    b.push(frame(0x1055, 0x1000));
    b.push(frame(0x20ff, 0x2000));
    assert!(a.same_stack(&b));
    assert!(a == b);
}

#[test]
fn different_symbols_differ() {
    let mut a = Frames::new();
    a.push(frame(0x1001, 0x1000));
    let mut b = Frames::new();
    b.push(frame(0x1001, 0x3000));
    assert!(!a.same_stack(&b));
    assert!(a != b);
}

#[test]
fn different_depths_differ() {
    let mut a = Frames::new();
    a.push(frame(0x1001, 0x1000));
    let mut b = a;
    b.push(frame(0x2002, 0x2000));
    assert!(!a.same_stack(&b));
    assert!(!b.same_stack(&a));
    assert!(Frames::new().same_stack(&Frames::new()));
}

fn hash_of(frames: &Frames) -> u64 {
    let mut hasher = DefaultHasher::new();
    frames.hash(&mut hasher);
    hasher.finish()
}

#[test]
fn equal_stacks_hash_alike() {
    let mut a = Frames::new();
    a.push(frame(0x1001, 0x1000));
    a.push(frame(0x2002, 0x2000));
    let mut b = Frames::new();
    b.push(frame(0x1055, 0x1000));
    b.push(frame(0x20ff, 0x2000));
    assert_eq!(hash_of(&a), hash_of(&b));

    let mut words = DefaultHasher::new();
    words.write_usize(0x1000);
    words.write_usize(0x2000);
    assert_eq!(hash_of(&a), words.finish());
    assert_eq!(hash_of(&Frames::new()), DefaultHasher::new().finish());
}

#[test]
fn stacks_are_keys_by_their_symbols() {
    let mut a = Frames::new();
    a.push(frame(0x1001, 0x1000));
    let mut b = Frames::new();
    b.push(frame(0x1055, 0x1000));
    let mut c = Frames::new();
    c.push(frame(0x1001, 0x3000));
    let mut set = HashSet::new();
    assert!(set.insert(a));
    assert!(!set.insert(b));
    assert!(set.insert(c));
    assert!(set.insert(Frames::new()));
    assert_eq!(set.len(), 3);
}
