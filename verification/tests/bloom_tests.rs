use bloom::Bloom;
use bloom::FpRate;
use bloom::Spooky;
use rand::Rng;
use std::collections::HashSet;

#[test]
fn spooky_hash128_test() {
    let buf: Vec<u8> = Vec::new();
    let mut hash1: u64 = 0;
    let mut hash2: u64 = 0;
    bloom::spooky_hash128(&buf, &mut hash1, &mut hash2);
    assert_eq!(hash1 & 0x00000000FFFFFFFF, 0x6bf50919);
}

#[test]
fn simple() {
    let mut b: Bloom = Bloom::new_for_fp_rate(100 as usize, FpRate::new(1, 100));
    b.set(&1);
    assert!(b.check(&1));
    assert!(!b.check(&2));
}

#[test]
fn fpr_test() {
    let cnt: usize = 500000;
    let rate = FpRate::new(1, 100);

    let bits = Bloom::compute_m(cnt as usize, rate);
    assert_eq!(bits, 4792529);
    let hashes = Bloom::optimal_k(bits, cnt);
    assert_eq!(hashes, 7);

    let mut b: Bloom = Bloom::new_for_fp_rate(cnt as usize, rate);
    let mut set: HashSet<i32> = HashSet::new();
    let mut rng = rand::thread_rng();

    let mut i: usize = 0;

    while i < cnt {
        let v = rng.gen::<i32>();
        set.insert(v);
        b.set(&v);
        i += 1;
    }

    i = 0;
    let mut false_positives: u32 = 0;
    while i < cnt {
        let v = rng.gen::<i32>();
        match (b.check(&v), set.contains(&v)) {
            (true, false) => {
                false_positives += 1;
            }
            (false, true) => {
                assert!(false);
            }
            _ => {}
        }
        i += 1;
    }

    let actual_rate = false_positives as f64 / cnt as f64;
    assert!(actual_rate > (0.01 - 0.001));
    assert!(actual_rate < (0.01 + 0.001));
}

#[test]
fn sizing_pinned_values() {
    assert_eq!(Bloom::compute_m(500000, FpRate::new(1, 100)), 4792529);
    assert_eq!(Bloom::optimal_k(4792529, 500000), 7);
    assert_eq!(Bloom::compute_m(100, FpRate::new(1, 100)), 959);
    assert_eq!(Bloom::compute_m(1000, FpRate::new(1, 2)), 1443);
    assert_eq!(Bloom::compute_m(1000, FpRate::new(1, 1000)), 14378);
    assert_eq!(Bloom::compute_m(0, FpRate::new(1, 100)), 0);
}

#[test]
fn optimal_k_monotone_examples() {
    // more bits per item asks for more probes, never fewer
    assert_eq!(Bloom::optimal_k(1000, 100), 7);
    assert_eq!(Bloom::optimal_k(2000, 100), 14);
    assert!(Bloom::optimal_k(1000, 100) <= Bloom::optimal_k(2000, 100));
    // a larger capacity at fixed bits asks for fewer probes, never more
    assert_eq!(Bloom::optimal_k(2000, 200), 7);
    assert!(Bloom::optimal_k(2000, 200) <= Bloom::optimal_k(2000, 100));
    // the probe count never drops under one
    assert_eq!(Bloom::optimal_k(100, 100), 1);
    assert_eq!(Bloom::optimal_k(1, 100), 1);
}

#[test]
fn fresh_filter_reports_nothing() {
    let b = Bloom::new(1024, 16);
    assert!(!b.check(&1));
    assert!(!b.check(&0));
    assert!(!b.check(&-5));
}

#[test]
fn set_is_idempotent() {
    let mut b = Bloom::new(1024, 16);
    b.set(&42);
    assert!(b.check(&42));
    let hit_17_once = b.check(&17);
    b.set(&42);
    b.set(&42);
    assert!(b.check(&42));
    assert_eq!(b.check(&17), hit_17_once);
}

#[test]
fn membership_survives_later_insertions() {
    let mut b = Bloom::new_for_fp_rate(1000, FpRate::new(1, 100));
    let mut i: i32 = 0;
    while i < 1000 {
        b.set(&i);
        i += 1;
    }
    i = 0;
    while i < 1000 {
        assert!(b.check(&i));
        i += 1;
    }
}

#[test]
fn wide_items_are_hashed() {
    let mut b = Bloom::new(4096, 32);
    let big: u64 = 0xdead_beef_cafe_f00d;
    let near: u64 = 0xdead_beef_cafe_f00e;
    b.set(&big);
    assert!(b.check(&big));
    assert!(!b.check(&near));
    let negative: i64 = -123456789012345;
    b.set(&negative);
    assert!(b.check(&negative));
    assert!(b.check(&big));
}

#[test]
fn adapter_digests_are_deterministic() {
    let bytes: Vec<u8> = vec![1, 2, 3, 4];
    let mut a = Spooky::new();
    let mut b = Spooky::new();
    // a fresh adapter reports its zero seed word
    assert_eq!(a.finish(), 0);
    a.write(&bytes);
    b.write(&bytes);
    assert_eq!(a.finish(), b.finish());
    // feeding the same chunk again changes the digest, deterministically
    let first: u64 = a.finish();
    a.write(&bytes);
    b.write(&bytes);
    assert_ne!(a.finish(), first);
    assert_eq!(a.finish(), b.finish());
}

#[test]
fn hash_depends_on_message_and_seed() {
    let empty: Vec<u8> = Vec::new();
    let one: Vec<u8> = vec![0];
    let mut h1: u64 = 0;
    let mut h2: u64 = 0;
    bloom::spooky_hash128(&empty, &mut h1, &mut h2);
    let mut g1: u64 = 0;
    let mut g2: u64 = 0;
    bloom::spooky_hash128(&one, &mut g1, &mut g2);
    assert_ne!((h1, h2), (g1, g2));
    let mut s1: u64 = 7;
    let mut s2: u64 = 9;
    bloom::spooky_hash128(&empty, &mut s1, &mut s2);
    assert_ne!((h1, h2), (s1, s2));
}

#[test]
fn smallest_filter_is_all_or_nothing() {
    // with one bit every probe lands on slot zero: before any insertion
    // nothing is reported, after one insertion everything is
    let mut b = Bloom::new(1, 1);
    assert!(!b.check(&7));
    b.set(&7);
    assert!(b.check(&7));
    assert!(b.check(&8));
}
