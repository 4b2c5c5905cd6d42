use snowflake::{compose_id, shuffle, Snowflake};

#[test]
fn compose_puts_timestamp_high_and_word_low() {
    assert_eq!(compose_id(1, 2), 0x0000_0001_0000_0002);
    assert_eq!(compose_id(0, 0), 0);
    assert_eq!(compose_id(999_999_999, 0xFFFF_FFFF), 0x3B9A_C9FF_FFFF_FFFF);
    assert_eq!(compose_id(0, 0xDEAD_BEEF), 0xDEAD_BEEF);
}

#[test]
fn next_at_uses_default_stream() {
    let mut s = Snowflake::new();
    assert_eq!(s.next_at(5), (5u64 << 32) | 676697322);
    assert_eq!(s.next_at(5), (5u64 << 32) | 420258633);
}

#[test]
fn first_two_ids_differ_for_equal_timestamps() {
    let mut s = Snowflake::new();
    let a = s.next_at(123_456_789);
    let b = s.next_at(123_456_789);
    assert_ne!(a, b);
}

#[test]
fn next_reads_clock_into_high_word() {
    let mut s = Snowflake::new();
    let id = s.next().unwrap();
    assert!((id >> 32) < 1_000_000_000);
    assert_eq!(id & 0xFFFF_FFFF, 676697322);
    let id2 = s.next().unwrap();
    assert_eq!(id2 & 0xFFFF_FFFF, 420258633);
}

#[test]
fn shuffle_of_ten_is_pinned() {
    let mut v: Vec<u64> = (0..10).collect();
    shuffle(&mut v);
    assert_eq!(v, vec![2, 1, 8, 4, 5, 7, 6, 0, 9, 3]);
}

#[test]
fn shuffle_keeps_items() {
    let mut v: Vec<u64> = vec![7, 8, 9];
    shuffle(&mut v);
    assert_eq!(v, vec![8, 9, 7]);
    let mut sorted = v.clone();
    sorted.sort();
    assert_eq!(sorted, vec![7, 8, 9]);
}

#[test]
fn shuffle_of_empty_and_single() {
    let mut e: Vec<u64> = Vec::new();
    shuffle(&mut e);
    assert!(e.is_empty());
    let mut one: Vec<u64> = vec![42];
    shuffle(&mut one);
    assert_eq!(one, vec![42]);
}

#[test]
fn shuffle_then_sort_round_trip_with_duplicates() {
    let base: Vec<u64> = vec![1, 1, 2, 3, 3, 3, 9];
    let mut copy = base.clone();
    shuffle(&mut copy);
    copy.sort();
    assert_eq!(copy, base);
}
