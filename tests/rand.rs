use payload::rand::Rand;
use payload::xoshiro::{SplitMix64, Xoshiro256};

#[test]
fn splitmix_first_output_for_seed_zero() {
    let mut s = SplitMix64::from_seed(0);
    assert_eq!(s.next(), 0xe220a8397b1dcdaf);
    assert_eq!(s.0, 0x9e3779b97f4a7c15);
}

#[test]
fn xoshiro_seeded_state_for_seed_zero() {
    let x = Xoshiro256::from_seed(0);
    assert_eq!(x.0, 0xe220a8397b1dcdaf);
    assert_eq!(x.1, 0x6e789e6aa1b965f4);
    assert_eq!(x.2, 0x06c45d188009454f);
    assert_eq!(x.3, 0xf88bb8a8724c81ec);
}

#[test]
fn xoshiro_outputs_for_seed_zero() {
    let mut x = Xoshiro256::from_seed(0);
    assert_eq!(x.next(), 11091344671253066420);
    assert_eq!(x.next(), 13793997310169335082);
    assert_eq!(x.next(), 1900383378846508768);
}

#[test]
fn rand_u64_for_seed_42() {
    let mut r = Rand::from_seed(42);
    assert_eq!(r.rand_u64(), 1546998764402558742);
    assert_eq!(r.rand_u64(), 6990951692964543102);
    assert_eq!(r.rand_u64(), 12544586762248559009);
}

#[test]
fn rand_u32_is_low_half() {
    let mut r = Rand::from_seed(42);
    assert_eq!(r.rand_u32(), (1546998764402558742u64 & 0xffff_ffff) as u32);
}

#[test]
fn same_seed_same_stream() {
    let mut a = Rand::from_seed(123456789);
    let mut b = Rand::from_seed(123456789);
    for _ in 0..1000 {
        assert_eq!(a.rand_u64(), b.rand_u64());
    }
}

#[test]
fn different_seeds_differ() {
    let mut a = Rand::from_seed(1);
    let mut b = Rand::from_seed(2);
    assert_ne!(a.rand_u64(), b.rand_u64());
}

#[test]
fn rand_bound_values_for_seed_42() {
    let mut r = Rand::from_seed(42);
    let got: Vec<u32> = (0..5).map(|_| r.rand_bound(10)).collect();
    assert_eq!(got, vec![4, 0, 9, 9, 6]);
}

#[test]
fn rand_bound_stays_below_bound() {
    let mut r = Rand::from_seed(9);
    for bound in [1u32, 2, 3, 7, 100, 1 << 31, u32::MAX] {
        for _ in 0..200 {
            assert!(r.rand_bound(bound) < bound);
        }
    }
}

#[test]
fn rand_bound_of_one_is_zero() {
    let mut r = Rand::from_seed(5);
    for _ in 0..50 {
        assert_eq!(r.rand_bound(1), 0);
    }
}

#[test]
fn rand_range_values_for_seed_7() {
    let mut r = Rand::from_seed(7);
    let got: Vec<u32> = (0..5).map(|_| r.rand_range(10, 16)).collect();
    assert_eq!(got, vec![14, 10, 12, 10, 10]);
}

#[test]
fn rand_range_is_half_open() {
    let mut r = Rand::from_seed(11);
    let mut seen = [false; 4];
    for _ in 0..500 {
        let v = r.rand_range(3, 7);
        assert!((3..7).contains(&v));
        seen[(v - 3) as usize] = true;
    }
    assert!(seen.iter().all(|s| *s));
}

#[test]
fn rand_bool_values_for_seed_7() {
    let mut r = Rand::from_seed(7);
    let got: Vec<bool> = (0..5).map(|_| r.rand_bool()).collect();
    assert_eq!(got, vec![true, false, true, true, true]);
}

#[test]
fn roll_dx_for_seed_3() {
    let mut r = Rand::from_seed(3);
    assert_eq!(r.roll_dx(20), 9);
}

#[test]
fn roll_dx_in_range() {
    let mut r = Rand::from_seed(4);
    for _ in 0..500 {
        let v = r.roll_dx(6);
        assert!((1..=6).contains(&v));
    }
}

#[test]
fn roll_ndx_for_seed_3() {
    let mut r = Rand::from_seed(3);
    assert_eq!(r.roll_ndx(3, 6), 8);
}

#[test]
fn roll_ndx_bounds_and_zero_dice() {
    let mut r = Rand::from_seed(8);
    assert_eq!(r.roll_ndx(0, 6), 0);
    for _ in 0..200 {
        let v = r.roll_ndx(4, 6);
        assert!((4..=24).contains(&v));
    }
}

#[test]
fn clock_seeded_generator_draws() {
    let mut r = Rand::new();
    assert!(r.rand_bound(10) < 10);
}
