use std::collections::HashSet;
use std::iter;

use bloomy::bloom::optimal_bits_default;
use bloomy::bloom::optimal_capacity_default;
use bloomy::bloom::optimal_hashes;
use bloomy::BloomFilter;

fn key() -> String {
    let rng = fastrand::Rng::new();
    iter::repeat_with(|| rng.alphanumeric()).take(32).collect()
}

fn items(size: usize) -> Vec<String> {
    let mut items = HashSet::<String>::new();
    for _ in 0..size {
        items.insert(key());
    }
    items.into_iter().collect()
}

#[test]
fn test_bloom_filter() {
    let n = 1024;
    let items = items(n);
    let mut bf = BloomFilter::<String>::new(items.len());

    // Test inclusion.
    for item in items.iter() {
        bf.insert(item);

        assert_eq!(
            bf.contains(item),
            true,
            "item {} should result in a positive inclusion",
            item,
        );
    }

    // Test false negatives.
    for _ in 0..n {
        let item = key();
        let exists = bf.contains(&item);

        if items.contains(&item) {
            assert_eq!(exists, true, "item {} resulted in a false negative", item);
        }
    }
}

#[test]
fn test_with_size() {
    let bf = BloomFilter::<String>::with_size(32 * 1024); // 32 KB

    assert_eq!(bf.bits(), 32 * 1024 * 8);
}

#[test]
fn test_union() {
    let a_items = items(128);
    let mut a = BloomFilter::<String>::new(a_items.len());
    for item in &a_items {
        a.insert(item);
    }

    let b_items = items(128);
    let mut b = BloomFilter::new(b_items.len());
    for item in &b_items {
        b.insert(item);
    }

    let union = a.union(&b);
    for item in a_items.iter().chain(b_items.iter()) {
        assert!(union.contains(item));
    }
}

#[test]
fn test_intersection() {
    let mut a = BloomFilter::<u8>::new(3);
    let mut b = a.clone();

    a.insert(&1);
    a.insert(&2);
    a.insert(&3);

    b.insert(&3);
    b.insert(&4);
    b.insert(&5);

    let intersection = a.intersection(&b);

    assert!(!intersection.contains(&1));
    assert!(!intersection.contains(&2));
    assert!(intersection.contains(&3));
    assert!(!intersection.contains(&4));
    assert!(!intersection.contains(&5));
}

#[test]
fn test_optimal_hashes() {
    assert_eq!(optimal_hashes(67, 10), 5);
    assert_eq!(optimal_hashes(47926, 5000), 7);
    assert_eq!(optimal_hashes(958506, 100000), 7);
}

#[test]
fn test_raw() {
    let size = 2 ^ 14;
    let mut a = BloomFilter::<String>::with_size(size);

    for item in items(2 ^ 10).iter() {
        a.insert(item);
    }

    let bytes: Vec<u8> = a.clone().into_bytes();
    let b = BloomFilter::from_bytes(bytes);

    assert_eq!(a, b);
    assert_eq!(a.bits(), b.bits());
    assert_eq!(a.hashes(), b.hashes());
}

#[test]
fn default_rate_sizing_values() {
    assert_eq!(optimal_bits_default(5000), 47926);
    assert_eq!(optimal_bits_default(100000), 958506);
    assert_eq!(optimal_bits_default(3), 29);
    assert_eq!(optimal_capacity_default(96), 10);
    assert_eq!(optimal_capacity_default(8), 1);
    assert_eq!(optimal_capacity_default(0), 0);
}

#[test]
fn default_rate_sizing_round_trip() {
    for c in [1usize, 10, 128, 1000, 5000, 84198, 958472] {
        assert_eq!(optimal_capacity_default(optimal_bits_default(c)), c);
    }
}

#[test]
fn new_is_sized_at_default_rate() {
    let bf = BloomFilter::<u32>::new(5000);
    assert_eq!(bf.bits(), 47926);
    assert_eq!(bf.hashes(), 7);
    assert_eq!(bf.count_ones(), 0);
}

#[test]
fn with_size_derives_hash_count() {
    let bf = BloomFilter::<u32>::with_size(12);
    assert_eq!(bf.bits(), 96);
    assert_eq!(bf.hashes(), 7);
    assert_eq!(bf.as_bytes().len(), 12);
}

#[test]
fn with_bits_uses_given_length() {
    let bf = BloomFilter::<u32>::with_bits(67, 10);
    assert_eq!(bf.bits(), 67);
    assert_eq!(bf.hashes(), 5);
}

#[test]
fn digest_insert_then_contains() {
    let mut bf = BloomFilter::<u32>::new(100);
    assert!(!bf.contains_digests(17, 99));
    bf.insert_digests(17, 99);
    assert!(bf.contains_digests(17, 99));
    assert!(bf.count_ones() >= 1 && bf.count_ones() <= bf.hashes());
}

#[test]
fn digest_positions_follow_enhanced_double_hashing() {
    // 64 bits, 3 positions: h1 + i*h2 + i^3 mod 64 for i = 0, 1, 2.
    let mut bf = BloomFilter::<u32>::with_bits(64, 30);
    assert_eq!(bf.hashes(), 2);
    bf.insert_digests(5, 10);
    let mut expected = vec![0u8; 8];
    // i = 0: 5; i = 1: 5 + 10 + 1 = 16.
    expected[0] = 1 << 5;
    expected[2] = 1 << 0;
    assert_eq!(bf.as_bytes().to_vec(), expected);
}

#[test]
fn digest_positions_wrap_modulo_word() {
    let mut bf = BloomFilter::<u32>::with_bits(10, 1);
    assert_eq!(bf.hashes(), 7);
    bf.insert_digests(u64::MAX, 1);
    // i = 0: (2^64 - 1) mod 10 = 5; i = 1: (2^64 - 1 + 1 + 1) mod 2^64 = 1.
    assert!(bf.contains_digests(u64::MAX, 1));
    assert_eq!(bf.as_bytes()[0] & 0b0010_0010, 0b0010_0010);
}

#[test]
fn insert_is_idempotent() {
    let mut a = BloomFilter::<String>::new(64);
    a.insert(&"foo".to_string());
    let once = a.as_bytes().to_vec();
    a.insert(&"foo".to_string());
    a.insert(&"foo".to_string());
    assert_eq!(once, a.as_bytes().to_vec());
}

#[test]
fn distinct_items_set_distinct_bits() {
    let mut a = BloomFilter::<String>::new(128);
    a.insert(&"foo".to_string());
    a.insert(&"bar".to_string());
    assert!(a.contains(&"foo".to_string()));
    assert!(a.contains(&"bar".to_string()));
    assert!(!a.contains(&"baz".to_string()));
    assert!(a.count_ones() > a.hashes());
}

#[test]
fn clear_empties_the_filter() {
    let mut a = BloomFilter::<u16>::new(64);
    a.insert(&7);
    assert!(a.contains(&7));
    a.clear();
    assert!(!a.contains(&7));
    assert_eq!(a.count_ones(), 0);
    assert_eq!(a, BloomFilter::<u16>::new(64));
}

#[test]
fn comparability_depends_on_configuration() {
    let a = BloomFilter::<u16>::new(64);
    let b = BloomFilter::<u16>::new(64);
    let c = BloomFilter::<u16>::new(65);
    let d = BloomFilter::<u16>::with_bits(a.bits(), 1);
    assert!(a.is_comparable(&b));
    assert!(!a.is_comparable(&c));
    assert!(!a.is_comparable(&d));
}

#[test]
fn union_keeps_members_of_both_sides() {
    let mut a = BloomFilter::<i32>::new(256);
    let mut b = BloomFilter::<i32>::new(256);
    for i in 0..100 {
        a.insert(&i);
    }
    for i in 100..200 {
        b.insert(&i);
    }
    let u = a.union(&b);
    for i in 0..200 {
        assert!(u.contains(&i));
    }
    let n = a.intersection(&b);
    assert!(n.count_ones() <= a.count_ones().min(b.count_ones()));
    assert!(u.count_ones() >= a.count_ones().max(b.count_ones()));
}

#[test]
fn bytes_round_trip_changes_length_off_byte_boundary() {
    let a = BloomFilter::<u8>::new(1);
    assert_eq!(a.bits(), 10);
    let b = BloomFilter::<u8>::from_bytes(a.clone().into_bytes());
    assert_eq!(b.bits(), 16);
    assert!(a != b);
}
