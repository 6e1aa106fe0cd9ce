use bnum::BUint;
use invdiv::divider::{Divider, DividerError};
use invdiv::wide::WideUint;

fn wide128(value: u64) -> WideUint<128> {
    WideUint::<128>::from_u64(value)
}

fn wide512(low: [u64; 4]) -> WideUint<512> {
    let mut digits = [0u64; 512];
    for i in 0..4 {
        digits[i] = low[i];
    }
    WideUint { digits }
}

fn large_divisor() -> WideUint<512> {
    wide512([0xffff_ffff_ffff_fffb, 0xffff_ffff_ffff_ffff, 0x3, 0])
}

fn next_random(state: &mut u64) -> u64 {
    let mut x = *state;
    x ^= x << 13;
    x ^= x >> 7;
    x ^= x << 17;
    *state = x;
    x
}

fn check_u64(dividend: u64, divisor: u64) {
    let t = Divider::new(wide128(divisor)).unwrap();
    let quotient = t.divide(wide128(dividend));
    let remainder = t.remainder(wide128(dividend));
    assert_eq!(quotient, wide128(dividend / divisor));
    assert_eq!(remainder, wide128(dividend % divisor));
}

#[test]
fn zero_divisor_is_rejected() {
    let r = Divider::new(wide128(0));
    assert!(matches!(r, Err(DividerError::ZeroDivisor)));
    let r = Divider::new(wide512([0, 0, 0, 0]));
    assert!(matches!(r, Err(DividerError::ZeroDivisor)));
}

#[test]
fn nonzero_divisor_is_accepted() {
    assert!(Divider::new(wide128(1)).is_ok());
    assert!(Divider::new(wide128(u64::MAX)).is_ok());
    assert!(Divider::new(large_divisor()).is_ok());
}

#[test]
fn divisor_seven_small_dividends() {
    let t = Divider::new(wide128(7)).unwrap();
    for n in 0u64..40 {
        assert_eq!(t.divide(wide128(n)), wide128(n / 7));
        assert_eq!(t.remainder(wide128(n)), wide128(n % 7));
    }
}

#[test]
fn divisor_seven_named_values() {
    let t = Divider::new(wide128(7)).unwrap();
    assert_eq!(t.divide(wide128(10)), wide128(1));
    assert_eq!(t.remainder(wide128(10)), wide128(3));
    assert_eq!(t.divide(wide128(21)), wide128(3));
    assert_eq!(t.remainder(wide128(21)), wide128(0));
}

#[test]
fn divisor_seven_parameters() {
    let t = Divider::new(wide128(7)).unwrap();
    assert_eq!(t.divisor(), wide128(7));
    assert_eq!(t.multiplier(), wide128(0x2492_4924_9249_2493));
    assert_eq!(t.sh1(), 1);
    assert_eq!(t.sh2(), 2);
}

#[test]
fn divisor_three_parameters() {
    let t = Divider::new(wide128(3)).unwrap();
    assert_eq!(t.multiplier(), wide128(0x5555_5555_5555_5556));
    assert_eq!(t.sh1(), 1);
    assert_eq!(t.sh2(), 1);
}

#[test]
fn largest_divisor_parameters() {
    let t = Divider::new(wide128(u64::MAX)).unwrap();
    assert_eq!(t.multiplier(), wide128(2));
    assert_eq!(t.sh1(), 1);
    assert_eq!(t.sh2(), 63);
    assert_eq!(t.divide(wide128(u64::MAX)), wide128(1));
    assert_eq!(t.remainder(wide128(u64::MAX)), wide128(0));
    assert_eq!(t.divide(wide128(u64::MAX - 1)), wide128(0));
    assert_eq!(t.remainder(wide128(u64::MAX - 1)), wide128(u64::MAX - 1));
}

#[test]
fn general_test() {
    let edge = [0u64, 1, 2, 3, 7, 10, 63, 64, 65, 1 << 32, (1 << 63) - 1, 1 << 63, u64::MAX - 1, u64::MAX];
    for &divisor in edge.iter() {
        if divisor == 0 {
            continue;
        }
        for &dividend in edge.iter() {
            check_u64(dividend, divisor);
        }
    }
    let mut state = 0x9e37_79b9_7f4a_7c15u64;
    for round in 0..200 {
        let dividend = next_random(&mut state);
        let divisor = next_random(&mut state) >> (round % 64);
        if divisor == 0 {
            continue;
        }
        check_u64(dividend, divisor);
    }
}

#[test]
fn test_p() {
    let p = BUint::<512>::from_str_radix("3fffffffffffffffffffffffffffffffb", 16).unwrap();
    assert_eq!(*p.digits(), large_divisor().digits);
    let t = Divider::new(large_divisor()).unwrap();
    let mut state = 0x0123_4567_89ab_cdefu64;
    for _ in 0..12 {
        let low = [
            next_random(&mut state),
            next_random(&mut state),
            next_random(&mut state),
            next_random(&mut state),
        ];
        let dividend = wide512(low);
        let expected = BUint::<512>::from_digits(dividend.digits);
        let result = t.divide(dividend);
        let remainder_result = t.remainder(dividend);
        assert_eq!(*(expected / p).digits(), result.digits);
        assert_eq!(*(expected % p).digits(), remainder_result.digits);
    }
}

#[test]
fn largest_wide_dividend() {
    let p = BUint::<512>::from_digits(large_divisor().digits);
    let t = Divider::new(large_divisor()).unwrap();
    let dividend = wide512([u64::MAX; 4]);
    let expected = BUint::<512>::from_digits(dividend.digits);
    assert_eq!(*(expected / p).digits(), t.divide(dividend).digits);
    assert_eq!(*(expected % p).digits(), t.remainder(dividend).digits);
}

#[test]
fn large_divisor_exceeds_small_dividends() {
    let t = Divider::new(large_divisor()).unwrap();
    let zero = wide512([0, 0, 0, 0]);
    let mut state = 0xdead_beef_cafe_f00du64;
    let mut samples = vec![0u64, 1, 7, u64::MAX];
    for _ in 0..8 {
        samples.push(next_random(&mut state));
    }
    for n in samples {
        let dividend = wide512([n, 0, 0, 0]);
        assert_eq!(t.divide(dividend), zero);
        assert_eq!(t.remainder(dividend), dividend);
    }
}

#[test]
fn large_divisor_parameters() {
    let t = Divider::new(large_divisor()).unwrap();
    assert_eq!(t.divisor(), large_divisor());
    assert_eq!(t.sh1(), 1);
    assert_eq!(t.sh2(), 129);
}

#[test]
fn power_of_two_fast_path() {
    let samples = [0u64, 1, 2, 3, 5, 1 << 20, 0x1234_5678_9abc_def0, u64::MAX];
    for k in 0u32..64 {
        let t = Divider::new(wide128(1u64 << k)).unwrap();
        assert_eq!(t.sh1(), if k == 0 { 0 } else { 1 });
        assert_eq!(t.sh2(), if k == 0 { 0 } else { k - 1 });
        assert_eq!(t.multiplier(), wide128(1));
        for &n in samples.iter() {
            assert_eq!(t.divide(wide128(n)), wide128(n >> k));
            assert_eq!(t.remainder(wide128(n)), wide128(n & ((1u64 << k) - 1)));
        }
    }
}

#[test]
fn power_of_two_in_wide_domain() {
    let t = Divider::new(wide512([0, 0, 0, 1 << 8])).unwrap();
    assert_eq!(t.sh1(), 1);
    assert_eq!(t.sh2(), 199);
    assert_eq!(t.multiplier(), wide512([1, 0, 0, 0]));
    let dividend = wide512([5, 6, 7, 0xabcd_0000_0000_1234]);
    assert_eq!(t.divide(dividend), wide512([0xabcd_0000_0000_12, 0, 0, 0]));
    assert_eq!(t.remainder(dividend), wide512([5, 6, 7, 0x34]));
}

#[test]
fn divisor_one_is_identity() {
    let t = Divider::new(wide128(1)).unwrap();
    assert_eq!(t.sh1(), 0);
    assert_eq!(t.sh2(), 0);
    for &n in [0u64, 1, 2, 41, 1 << 63, u64::MAX].iter() {
        assert_eq!(t.divide(wide128(n)), wide128(n));
        assert_eq!(t.remainder(wide128(n)), wide128(0));
    }
    let t = Divider::new(wide512([1, 0, 0, 0])).unwrap();
    let n = wide512([9, 8, 7, 6]);
    assert_eq!(t.divide(n), n);
    assert_eq!(t.remainder(n), wide512([0, 0, 0, 0]));
}

#[test]
fn division_identity_holds() {
    let mut state = 0x5151_5151_a1a1_a1a1u64;
    for _ in 0..50 {
        let dividend = next_random(&mut state);
        let divisor = next_random(&mut state) >> 40;
        if divisor == 0 {
            continue;
        }
        let t = Divider::new(wide128(divisor)).unwrap();
        let q = BUint::<128>::from_digits(t.divide(wide128(dividend)).digits);
        let r = BUint::<128>::from_digits(t.remainder(wide128(dividend)).digits);
        let d = BUint::<128>::from(divisor);
        assert_eq!(d * q + r, BUint::<128>::from(dividend));
        assert!(r < d);
    }
}

#[test]
fn fits_tells_the_domain() {
    assert!(Divider::<128>::fits(&wide128(0)));
    assert!(Divider::<128>::fits(&wide128(u64::MAX)));
    let mut digits = [0u64; 128];
    digits[1] = 1;
    assert!(!Divider::<128>::fits(&WideUint { digits }));
    digits[1] = 0;
    digits[127] = 1;
    assert!(!Divider::<128>::fits(&WideUint { digits }));
    assert!(Divider::<512>::fits(&wide512([u64::MAX; 4])));
    let mut digits = [0u64; 512];
    digits[4] = 1;
    assert!(!Divider::<512>::fits(&WideUint { digits }));
}

#[test]
fn narrow_domain() {
    let t = Divider::new(WideUint::<8>::from_u64(11)).unwrap();
    assert_eq!(t.multiplier(), WideUint::<8>::from_u64(8));
    assert_eq!(t.sh1(), 1);
    assert_eq!(t.sh2(), 3);
    for n in 0u64..16 {
        assert_eq!(t.divide(WideUint::<8>::from_u64(n)), WideUint::<8>::from_u64(n / 11));
        assert_eq!(t.remainder(WideUint::<8>::from_u64(n)), WideUint::<8>::from_u64(n % 11));
    }
    assert!(Divider::<8>::fits(&WideUint::<8>::from_u64(15)));
    assert!(!Divider::<8>::fits(&WideUint::<8>::from_u64(16)));
}
